use vstd::prelude::*;
use crate::error::PipelineError;
use crate::parameters::StageParameters;
use crate::pipeline::Pipeline;
use crate::stage::{PipelineStage, StageConfiguration, StageType};
use crate::text::{ascii_lower, ascii_lower_char, chars_of, has_substring, lowercase, lowercased, no_ascii_capital, split_chars, split_on, string_from_chars, string_is, trim_chars, trimmed};

verus! {

/// The message of the error for an unknown storage type.
pub open spec fn invalid_storage_message(s: Seq<char>) -> Seq<char> {
    "Invalid storage type '"@ + s + "'. Valid values: nvme, ssd, hdd"@
}

/// Reads a storage type, ignoring case: `nvme`, `ssd` or `hdd`, returned in
/// lowercase; anything else is an error naming the input.
pub fn parse_storage_type(s: &str) -> (r: Result<String, String>)
    ensures
        ({
            let l = lowercased(s@);
            if l == "nvme"@ || l == "ssd"@ || l == "hdd"@ {
                r matches Ok(t) && t@ == l
            } else {
                r matches Err(m) && m@ == invalid_storage_message(s@)
            }
        }),
{
    let lowered = lowercase(s);
    if string_is(&lowered, "nvme") || string_is(&lowered, "ssd") || string_is(&lowered, "hdd") {
        Ok(lowered)
    } else {
        let mut m = String::from_str("Invalid storage type '");
        m.append(s);
        m.append("'. Valid values: nvme, ssd, hdd");
        Err(m)
    }
}

/// Whether a character is turned into a hyphen when a pipeline name is
/// normalized: space, underscore, dot, slashes and common punctuation.
pub open spec fn is_name_separator(c: char) -> bool {
    c == ' ' || c == '_' || c == '.' || c == '/' || c == '\\' || c == ':' || c == ';' || c == ','
        || c == '|' || c == '&' || c == '+' || c == '=' || c == '!' || c == '?' || c == '*' || c
        == '%' || c == '#' || c == '@' || c == '$' || c == '^' || c == '(' || c == ')' || c == '['
        || c == ']' || c == '{' || c == '}' || c == '<' || c == '>' || c == '"' || c == '\'' || c
        == '`' || c == '~'
}

/// Whether a character is an ASCII letter or digit.
pub open spec fn is_ascii_alnum(c: char) -> bool {
    ('a' <= c && c <= 'z') || ('A' <= c && c <= 'Z') || ('0' <= c && c <= '9')
}

/// A character after separators became hyphens, or `None` when it is
/// dropped (neither an ASCII letter or digit nor a hyphen).
pub open spec fn name_char(c: char) -> Option<char> {
    if is_name_separator(c) {
        Some('-')
    } else if is_ascii_alnum(c) || c == '-' {
        Some(c)
    } else {
        None
    }
}

/// The characters kept from a name, separators turned into hyphens.
pub open spec fn kept_name_chars(s: Seq<char>) -> Seq<char>
    decreases s.len(),
{
    if s.len() == 0 {
        Seq::empty()
    } else {
        let k = kept_name_chars(s.drop_last());
        match name_char(s.last()) {
            Some(c) => k.push(c),
            None => k,
        }
    }
}

/// Collapsing hyphens: the characters written so far, and whether a hyphen
/// is waiting to be written before the next other character.
pub open spec fn collapse_state(s: Seq<char>) -> (Seq<char>, bool)
    decreases s.len(),
{
    if s.len() == 0 {
        (Seq::empty(), false)
    } else {
        let (out, pending) = collapse_state(s.drop_last());
        let c = s.last();
        if c == '-' {
            (out, out.len() > 0)
        } else if pending {
            (out.push('-').push(c), false)
        } else {
            (out.push(c), false)
        }
    }
}

/// The runs of non-hyphen characters joined by single hyphens: leading,
/// trailing and repeated hyphens go.
pub open spec fn collapse_hyphens(s: Seq<char>) -> Seq<char> {
    collapse_state(s).0
}

/// The kebab-case form of a pipeline name: lowercased, separators turned
/// into hyphens, other characters that are not ASCII letters or digits
/// dropped, and hyphens collapsed.
pub open spec fn normalized_name(name: Seq<char>) -> Seq<char> {
    collapse_hyphens(kept_name_chars(lowercased(name)))
}

/// Whether a name separator.
fn is_separator(c: char) -> (b: bool)
    ensures
        b == is_name_separator(c),
{
    c == ' ' || c == '_' || c == '.' || c == '/' || c == '\\' || c == ':' || c == ';' || c == ','
        || c == '|' || c == '&' || c == '+' || c == '=' || c == '!' || c == '?' || c == '*' || c
        == '%' || c == '#' || c == '@' || c == '$' || c == '^' || c == '(' || c == ')' || c == '['
        || c == ']' || c == '{' || c == '}' || c == '<' || c == '>' || c == '"' || c == '\'' || c
        == '`' || c == '~'
}

/// Turns a name into kebab case: lowercase, separators become hyphens,
/// other characters that are not ASCII letters or digits are dropped, and
/// runs of hyphens shrink to one, none at either end.
pub fn normalize_pipeline_name(name: &str) -> (r: String)
    ensures
        r@ == normalized_name(name@),
        is_kebab(r@),
        no_ascii_capital(r@),
{
    let lowered = lowercase(name);
    let chars = chars_of(lowered.as_str());
    let mut out: Vec<char> = Vec::new();
    let mut pending = false;
    let ghost mut kept: Seq<char> = Seq::empty();
    let mut i: usize = 0;
    while i < chars.len()
        invariant
            i <= chars@.len(),
            chars@ == lowered@,
            kept == kept_name_chars(chars@.take(i as int)),
            collapse_state(kept) == (out@, pending),
        decreases chars@.len() - i,
    {
        let c = chars[i];
        let mapped: Option<char> = if is_separator(c) {
            Some('-')
        } else if ('a' <= c && c <= 'z') || ('A' <= c && c <= 'Z') || ('0' <= c && c <= '9') || c == '-' {
            Some(c)
        } else {
            None
        };
        proof {
            let t = chars@.take(i as int + 1);
            assert(t.drop_last() =~= chars@.take(i as int));
            assert(t.last() == c);
        }
        match mapped {
            Some(m) => {
                proof {
                    let k2 = kept.push(m);
                    assert(k2.drop_last() =~= kept);
                    kept = k2;
                }
                if m == '-' {
                    pending = out.len() > 0;
                } else {
                    if pending {
                        out.push('-');
                    }
                    out.push(m);
                    pending = false;
                }
            },
            None => {},
        }
        i = i + 1;
    }
    proof {
        assert(chars@.take(chars@.len() as int) =~= chars@);
        assert(lowered@ == lowercased(name@));
        lemma_normalized_name_is_kebab(name@);
        lemma_normalized_lowercase_has_no_capital(lowered@);
    }
    string_from_chars(out)
}

/// The names a pipeline cannot have.
pub open spec fn is_reserved_name(n: Seq<char>) -> bool {
    n == "help"@ || n == "version"@ || n == "list"@ || n == "show"@ || n == "create"@ || n == "delete"@
        || n == "update"@ || n == "config"@
}

/// Whether a pipeline name is accepted: not empty, at least four
/// characters once normalized, and not a reserved word once normalized.
pub open spec fn name_accepted(name: Seq<char>) -> bool {
    name.len() > 0 && normalized_name(name).len() >= 4 && !is_reserved_name(normalized_name(name))
}

/// The message of the error for a name that is not accepted.
pub open spec fn name_error_message(name: Seq<char>) -> Seq<char> {
    if name.len() == 0 {
        "Pipeline name cannot be empty"@
    } else if normalized_name(name).len() < 4 {
        "Pipeline name must be at least 4 characters long"@
    } else {
        "Pipeline name '"@ + name + "' is reserved. Please choose a different name."@
    }
}

/// What checking a pipeline name gives: the normalized name for an
/// accepted name, the first broken rule's message otherwise.
pub open spec fn pipeline_name_checked(name: Seq<char>, r: Result<String, String>) -> bool {
    if name_accepted(name) {
        r matches Ok(t) && t@ == normalized_name(name)
    } else {
        r matches Err(m) && m@ == name_error_message(name)
    }
}

/// Checks a pipeline name and returns its kebab-case form.
pub fn validate_pipeline_name(name: &str) -> (r: Result<String, String>)
    ensures
        pipeline_name_checked(name@, r),
{
    if name.is_empty() {
        return Err(String::from_str("Pipeline name cannot be empty"));
    }
    let normalized = normalize_pipeline_name(name);
    let n = chars_of(normalized.as_str());
    if n.len() < 4 {
        return Err(String::from_str("Pipeline name must be at least 4 characters long"));
    }
    if string_is(&normalized, "help") || string_is(&normalized, "version") || string_is(&normalized, "list")
        || string_is(&normalized, "show") || string_is(&normalized, "create") || string_is(&normalized, "delete")
        || string_is(&normalized, "update") || string_is(&normalized, "config") {
        let mut m = String::from_str("Pipeline name '");
        m.append(name);
        m.append("' is reserved. Please choose a different name.");
        return Err(m);
    }
    Ok(normalized)
}

/// Whether a character may stand in a kebab-case name.
pub open spec fn is_kebab_char(c: char) -> bool {
    is_ascii_alnum(c) || c == '-'
}

/// Whether a name is in kebab case: ASCII letters, digits and single
/// hyphens between them.
pub open spec fn is_kebab(t: Seq<char>) -> bool {
    &&& forall|i: int| 0 <= i < t.len() ==> is_kebab_char(#[trigger] t[i])
    &&& t.len() > 0 ==> t[0] != '-' && t[t.len() - 1] != '-'
    &&& forall|i: int| 0 <= i < t.len() - 1 ==> !(#[trigger] t[i] == '-' && t[i + 1] == '-')
}

/// Collapsing the hyphens of letters, digits and hyphens gives kebab case;
/// a hyphen is only ever waiting after something was written.
proof fn lemma_collapse_state_kebab(s: Seq<char>)
    requires
        forall|i: int| 0 <= i < s.len() ==> is_kebab_char(#[trigger] s[i]),
    ensures
        is_kebab(collapse_state(s).0),
        collapse_state(s).1 ==> collapse_state(s).0.len() > 0,
    decreases s.len(),
{
    if s.len() > 0 {
        let d = s.drop_last();
        assert forall|i: int| 0 <= i < d.len() implies is_kebab_char(#[trigger] d[i]) by {
            assert(d[i] == s[i]);
        }
        lemma_collapse_state_kebab(d);
        let (out, pending) = collapse_state(d);
        let c = s.last();
        assert(is_kebab_char(s[s.len() - 1]));
        if c != '-' {
            let o2 = if pending { out.push('-').push(c) } else { out.push(c) };
            assert forall|i: int| 0 <= i < o2.len() implies is_kebab_char(#[trigger] o2[i]) by {
                if i < out.len() {
                    assert(o2[i] == out[i]);
                }
            }
            assert forall|i: int| 0 <= i < o2.len() - 1 implies !(#[trigger] o2[i] == '-' && o2[i + 1] == '-') by {
                if i + 1 < out.len() {
                    assert(o2[i] == out[i] && o2[i + 1] == out[i + 1]);
                } else if i + 1 == out.len() {
                    assert(o2[i] == out[i]);
                }
            }
            if out.len() > 0 {
                assert(o2[0] == out[0]);
            }
        }
    }
}

/// Keeping the characters of a name brings in no ASCII capital that was not
/// there.
proof fn lemma_kept_chars_no_capital(s: Seq<char>)
    requires
        no_ascii_capital(s),
    ensures
        no_ascii_capital(kept_name_chars(s)),
    decreases s.len(),
{
    if s.len() > 0 {
        let d = s.drop_last();
        assert forall|i: int| 0 <= i < d.len() implies !('A' <= #[trigger] d[i] && d[i] <= 'Z') by {
            assert(d[i] == s[i]);
        }
        lemma_kept_chars_no_capital(d);
        let k = kept_name_chars(d);
        assert(!('A' <= s[s.len() - 1] && s[s.len() - 1] <= 'Z'));
        match name_char(s.last()) {
            Some(c) => {
                assert forall|i: int| 0 <= i < k.push(c).len() implies !('A' <= #[trigger] k.push(c)[i] && k.push(c)[i] <= 'Z') by {
                    if i < k.len() {
                        assert(k.push(c)[i] == k[i]);
                    }
                }
            },
            None => {},
        }
    }
}

/// Collapsing hyphens brings in no ASCII capital that was not there.
proof fn lemma_collapse_no_capital(s: Seq<char>)
    requires
        no_ascii_capital(s),
    ensures
        no_ascii_capital(collapse_state(s).0),
    decreases s.len(),
{
    if s.len() > 0 {
        let d = s.drop_last();
        assert forall|i: int| 0 <= i < d.len() implies !('A' <= #[trigger] d[i] && d[i] <= 'Z') by {
            assert(d[i] == s[i]);
        }
        lemma_collapse_no_capital(d);
        let (out, pending) = collapse_state(d);
        let c = s.last();
        assert(!('A' <= s[s.len() - 1] && s[s.len() - 1] <= 'Z'));
        if c != '-' {
            let o2 = if pending { out.push('-').push(c) } else { out.push(c) };
            assert forall|i: int| 0 <= i < o2.len() implies !('A' <= #[trigger] o2[i] && o2[i] <= 'Z') by {
                if i < out.len() {
                    assert(o2[i] == out[i]);
                }
            }
        }
    }
}

/// A name normalized from lowercase text holds no ASCII capital.
pub proof fn lemma_normalized_lowercase_has_no_capital(lowered: Seq<char>)
    requires
        no_ascii_capital(lowered),
    ensures
        no_ascii_capital(collapse_hyphens(kept_name_chars(lowered))),
{
    lemma_kept_chars_no_capital(lowered);
    lemma_collapse_no_capital(kept_name_chars(lowered));
}

/// A normalized pipeline name is in kebab case.
pub proof fn lemma_normalized_name_is_kebab(name: Seq<char>)
    ensures
        is_kebab(normalized_name(name)),
{
    let k = kept_name_chars(lowercased(name));
    lemma_kept_chars_are_kebab(lowercased(name));
    lemma_collapse_state_kebab(k);
}

/// Every kept character may stand in a kebab-case name.
proof fn lemma_kept_chars_are_kebab(s: Seq<char>)
    ensures
        forall|i: int| 0 <= i < kept_name_chars(s).len() ==> is_kebab_char(#[trigger] kept_name_chars(s)[i]),
    decreases s.len(),
{
    if s.len() > 0 {
        lemma_kept_chars_are_kebab(s.drop_last());
        let k = kept_name_chars(s.drop_last());
        match name_char(s.last()) {
            Some(c) => {
                assert forall|i: int| 0 <= i < k.push(c).len() implies is_kebab_char(#[trigger] k.push(c)[i]) by {
                    if i < k.len() {
                        assert(k.push(c)[i] == k[i]);
                    }
                }
            },
            None => {},
        }
    }
}

/// Keeping the characters of a name made of kebab characters keeps them
/// all.
proof fn lemma_kept_chars_of_kebab(t: Seq<char>)
    requires
        forall|i: int| 0 <= i < t.len() ==> is_kebab_char(#[trigger] t[i]),
    ensures
        kept_name_chars(t) == t,
    decreases t.len(),
{
    if t.len() > 0 {
        let d = t.drop_last();
        assert forall|i: int| 0 <= i < d.len() implies is_kebab_char(#[trigger] d[i]) by {
            assert(d[i] == t[i]);
        }
        lemma_kept_chars_of_kebab(d);
        assert(is_kebab_char(t[t.len() - 1]));
        assert(d.push(t.last()) =~= t);
    }
}

/// Collapsing the hyphens of a prefix of a kebab-case name writes the
/// prefix, holding back a final hyphen.
proof fn lemma_collapse_prefix_of_kebab(t: Seq<char>, k: int)
    requires
        is_kebab(t),
        0 <= k <= t.len(),
    ensures
        ({
            let p = t.take(k);
            if k == 0 {
                collapse_state(p) == (Seq::<char>::empty(), false)
            } else if t[k - 1] == '-' {
                collapse_state(p) == (t.take(k - 1), true)
            } else {
                collapse_state(p) == (p, false)
            }
        }),
    decreases k,
{
    if k > 0 {
        lemma_collapse_prefix_of_kebab(t, k - 1);
        let p = t.take(k);
        assert(p.drop_last() =~= t.take(k - 1));
        assert(p.last() == t[k - 1]);
        if t[k - 1] == '-' {
            assert(k - 1 > 0);
            assert(t[k - 2] != '-');
        } else if k >= 2 && t[k - 2] == '-' {
            assert(t.take(k - 2).push('-').push(t[k - 1]) =~= p);
        } else if k >= 2 {
            assert(t.take(k - 1).push(t[k - 1]) =~= p);
        } else {
            assert(Seq::<char>::empty().push(t[0]) =~= p);
        }
    }
}

/// ASCII lowercasing a character that may stand in a kebab-case name gives
/// one that may.
proof fn lemma_lower_keeps_kebab(t: Seq<char>)
    requires
        is_kebab(t),
    ensures
        is_kebab(ascii_lower(t)),
        vstd::utf8::is_ascii_chars(t),
{
    let l = ascii_lower(t);
    assert forall|i: int| 0 <= i < l.len() implies is_kebab_char(#[trigger] l[i]) by {
        assert(is_kebab_char(t[i]));
    }
    assert forall|i: int| 0 <= i < l.len() - 1 implies !(#[trigger] l[i] == '-' && l[i + 1] == '-') by {
        assert(is_kebab_char(t[i]) && is_kebab_char(t[i + 1]));
        assert(!(t[i] == '-' && t[i + 1] == '-'));
    }
    assert forall|i: int| 0 <= i < t.len() implies (#[trigger] t[i]) as u32 <= 127 by {
        assert(is_kebab_char(t[i]));
    }
}

/// Normalizing an already normalized name only lowercases its ASCII
/// letters; for an ASCII name, normalizing twice is normalizing once.
pub proof fn lemma_normalize_idempotent(name: Seq<char>)
    ensures
        normalized_name(normalized_name(name)) == ascii_lower(normalized_name(name)),
        vstd::utf8::is_ascii_chars(name) ==> normalized_name(normalized_name(name)) == normalized_name(name),
{
    let n = normalized_name(name);
    lemma_normalized_name_is_kebab(name);
    lemma_lower_keeps_kebab(n);
    let l = ascii_lower(n);
    assert(lowercased(n) == l);
    lemma_kept_chars_of_kebab(l);
    lemma_collapse_prefix_of_kebab(l, l.len() as int);
    assert(l.take(l.len() as int) =~= l);
    if l.len() > 0 {
        assert(l[l.len() - 1] != '-');
    }
    if vstd::utf8::is_ascii_chars(name) {
        let a = ascii_lower(name);
        assert(lowercased(name) == a);
        assert forall|i: int| 0 <= i < a.len() implies !is_ascii_upper(#[trigger] a[i]) by {
            assert(a[i] == ascii_lower_char(name[i]));
        }
        lemma_kept_no_upper(a);
        lemma_collapse_no_upper(kept_name_chars(a));
        assert forall|i: int| 0 <= i < n.len() implies #[trigger] l[i] == n[i] by {
            assert(!is_ascii_upper(n[i]));
        }
        assert(l =~= n);
    }
}

/// Whether a character is an ASCII capital letter.
pub open spec fn is_ascii_upper(c: char) -> bool {
    'A' <= c && c <= 'Z'
}

/// Keeping characters adds no capital letter.
proof fn lemma_kept_no_upper(s: Seq<char>)
    requires
        forall|i: int| 0 <= i < s.len() ==> !is_ascii_upper(#[trigger] s[i]),
    ensures
        forall|i: int| 0 <= i < kept_name_chars(s).len() ==> !is_ascii_upper(#[trigger] kept_name_chars(s)[i]),
    decreases s.len(),
{
    if s.len() > 0 {
        let d = s.drop_last();
        assert forall|i: int| 0 <= i < d.len() implies !is_ascii_upper(#[trigger] d[i]) by {
            assert(d[i] == s[i]);
        }
        lemma_kept_no_upper(d);
        let k = kept_name_chars(d);
        assert(!is_ascii_upper(s[s.len() - 1]));
        match name_char(s.last()) {
            Some(c) => {
                assert forall|i: int| 0 <= i < k.push(c).len() implies !is_ascii_upper(#[trigger] k.push(c)[i]) by {
                    if i < k.len() {
                        assert(k.push(c)[i] == k[i]);
                    }
                }
            },
            None => {},
        }
    }
}

/// Collapsing hyphens adds no capital letter.
proof fn lemma_collapse_no_upper(s: Seq<char>)
    requires
        forall|i: int| 0 <= i < s.len() ==> !is_ascii_upper(#[trigger] s[i]),
    ensures
        forall|i: int| 0 <= i < collapse_state(s).0.len() ==> !is_ascii_upper(#[trigger] collapse_state(s).0[i]),
    decreases s.len(),
{
    if s.len() > 0 {
        let d = s.drop_last();
        assert forall|i: int| 0 <= i < d.len() implies !is_ascii_upper(#[trigger] d[i]) by {
            assert(d[i] == s[i]);
        }
        lemma_collapse_no_upper(d);
        let (out, pending) = collapse_state(d);
        let c = s.last();
        assert(!is_ascii_upper(s[s.len() - 1]));
        if c != '-' {
            let o2 = if pending { out.push('-').push(c) } else { out.push(c) };
            assert forall|i: int| 0 <= i < o2.len() implies !is_ascii_upper(#[trigger] o2[i]) by {
                if i < out.len() {
                    assert(o2[i] == out[i]);
                }
            }
        }
    }
}

/// Whether `t` begins with `p`.
pub open spec fn starts_with(t: Seq<char>, p: Seq<char>) -> bool {
    t.len() >= p.len() && t.take(p.len() as int) == p
}

/// The stage type and algorithm a stage word asks for: `compression`
/// (Brotli), `encryption` (AES-256-GCM), `integrity`, `checksum` or any word
/// mentioning a checksum (SHA-256), `passthrough`, `compression:ALG`,
/// `encryption:ALG`; any other word is a pass-through stage.
pub open spec fn stage_word(t: Seq<char>) -> (StageType, Seq<char>) {
    if t == "compression"@ {
        (StageType::Compression, "brotli"@)
    } else if t == "encryption"@ {
        (StageType::Encryption, "aes256gcm"@)
    } else if t == "integrity"@ || t == "checksum"@ {
        (StageType::Checksum, "sha256"@)
    } else if has_substring(t, "checksum"@) {
        (StageType::Checksum, "sha256"@)
    } else if t == "passthrough"@ {
        (StageType::PassThrough, "passthrough"@)
    } else if starts_with(t, "compression:"@) {
        (StageType::Compression, t.skip(12))
    } else if starts_with(t, "encryption:"@) {
        (StageType::Encryption, t.skip(11))
    } else {
        (StageType::PassThrough, "passthrough"@)
    }
}

/// Whether `s` is the stage at position `order` that the word `t` asks for:
/// named `t`, of the word's type and algorithm, with the default settings
/// otherwise.
pub open spec fn is_worded_stage(s: PipelineStage, t: Seq<char>, order: u32) -> bool {
    &&& s.spec_name() == t
    &&& s.spec_stage_type() == stage_word(t).0
    &&& s.spec_configuration().algorithm@ == stage_word(t).1
    &&& s.spec_configuration().parameters@ == Map::<Seq<char>, Seq<char>>::empty()
    &&& s.spec_configuration().parallel_processing
    &&& s.spec_configuration().chunk_size is None
    &&& s.spec_order() == order
    &&& s.spec_enabled()
}

/// Whether the characters of `v` from `at` begin with those of `p`.
fn has_prefix(v: &Vec<char>, p: &str) -> (b: bool)
    ensures
        b == starts_with(v@, p@),
{
    let pv = chars_of(p);
    if pv.len() > v.len() {
        return false;
    }
    let mut i: usize = 0;
    while i < pv.len()
        invariant
            i <= pv@.len(),
            pv@ == p@,
            pv@.len() <= v@.len(),
            forall|k: int| 0 <= k < i ==> v@[k] == pv@[k],
        decreases pv@.len() - i,
    {
        if v[i] != pv[i] {
            proof {
                assert(v@.take(pv@.len() as int)[i as int] != pv@[i as int]);
            }
            return false;
        }
        i = i + 1;
    }
    proof {
        assert(v@.take(pv@.len() as int) =~= pv@);
    }
    true
}

/// The characters of `v` from position `k` on, as a string.
fn string_from(v: &Vec<char>, k: usize) -> (s: String)
    requires
        k <= v@.len(),
    ensures
        s@ == v@.skip(k as int),
{
    let mut out: Vec<char> = Vec::new();
    let mut i: usize = k;
    while i < v.len()
        invariant
            k <= i <= v@.len(),
            out@ == v@.subrange(k as int, i as int),
        decreases v@.len() - i,
    {
        out.push(v[i]);
        proof {
            assert(v@.subrange(k as int, i as int + 1) =~= v@.subrange(k as int, i as int).push(v@[i as int]));
        }
        i = i + 1;
    }
    proof {
        assert(v@.subrange(k as int, v@.len() as int) =~= v@.skip(k as int));
    }
    string_from_chars(out)
}

/// The stage type and algorithm a stage word asks for.
fn read_stage_word(word: &Vec<char>, text: &String) -> (r: (StageType, String))
    requires
        text@ == word@,
    ensures
        r.0 == stage_word(word@).0,
        r.1@ == stage_word(word@).1,
{
    proof {
        reveal_strlit("compression:");
        reveal_strlit("encryption:");
    }
    if string_is(text, "compression") {
        (StageType::Compression, String::from_str("brotli"))
    } else if string_is(text, "encryption") {
        (StageType::Encryption, String::from_str("aes256gcm"))
    } else if string_is(text, "integrity") || string_is(text, "checksum") {
        (StageType::Checksum, String::from_str("sha256"))
    } else if crate::text::contains_str(text.as_str(), "checksum") {
        (StageType::Checksum, String::from_str("sha256"))
    } else if string_is(text, "passthrough") {
        (StageType::PassThrough, String::from_str("passthrough"))
    } else if has_prefix(word, "compression:") {
        (StageType::Compression, string_from(word, 12))
    } else if has_prefix(word, "encryption:") {
        (StageType::Encryption, string_from(word, 11))
    } else {
        (StageType::PassThrough, String::from_str("passthrough"))
    }
}

/// The stages a comma-separated list of stage words asks for, each named by
/// its trimmed word and numbered from 0. An empty word is the
/// `InvalidConfiguration` error of `PipelineStage::new`.
pub fn build_pipeline_stages(stages: &str) -> (r: Result<Vec<PipelineStage>, PipelineError>)
    requires
        split_on(stages@, ',').len() <= u32::MAX,
    ensures
        ({
            let words = split_on(stages@, ',');
            &&& r is Ok <==> forall|i: int| 0 <= i < words.len() ==> trimmed(#[trigger] words[i]).len() > 0
            &&& r matches Ok(v) ==> v@.len() == words.len() && forall|i: int| 0 <= i < words.len() ==> is_worded_stage(
                #[trigger] v@[i],
                trimmed(words[i]),
                i as u32,
            )
            &&& r matches Err(e) ==> (e matches PipelineError::InvalidConfiguration(m) && m@ == "Stage name cannot be empty"@)
        }),
{
    let all = chars_of(stages);
    let words = split_chars(&all, ',');
    let mut out: Vec<PipelineStage> = Vec::new();
    let mut i: usize = 0;
    while i < words.len()
        invariant
            i <= words@.len(),
            all@ == stages@,
            words@.len() == split_on(stages@, ',').len(),
            words@.len() <= u32::MAX,
            forall|k: int| 0 <= k < words@.len() ==> #[trigger] words@[k]@ == split_on(stages@, ',')[k],
            out@.len() == i,
            forall|k: int| 0 <= k < i ==> trimmed(#[trigger] split_on(stages@, ',')[k]).len() > 0,
            forall|k: int| 0 <= k < i ==> is_worded_stage(#[trigger] out@[k], trimmed(split_on(stages@, ',')[k]), k as u32),
        decreases words@.len() - i,
    {
        let word = trim_chars(&words[i]);
        let text = string_from_chars(word.clone());
        let (stage_type, algorithm) = read_stage_word(&word, &text);
        let config = StageConfiguration {
            algorithm,
            parameters: StageParameters::new(),
            parallel_processing: true,
            chunk_size: None,
        };
        match PipelineStage::new(text, stage_type, config, i as u32) {
            Ok(stage) => {
                out.push(stage);
            },
            Err(e) => {
                return Err(e);
            },
        }
        i = i + 1;
    }
    Ok(out)
}

/// A new pipeline from the command line: the name must pass
/// `validate_pipeline_name` (its error is a `ValidationError`), the stage
/// list must name no empty stage, and the pipeline keeps the name as given.
pub fn create_pipeline(name: &str, stages: &str) -> (r: Result<Pipeline, PipelineError>)
    requires
        split_on(stages@, ',').len() + 2 < u32::MAX,
    ensures
        ({
            let words = split_on(stages@, ',');
            &&& r is Ok <==> (name_accepted(name@) && forall|i: int| 0 <= i < words.len() ==> trimmed(#[trigger] words[i]).len() > 0)
            &&& !name_accepted(name@) ==> (r matches Err(PipelineError::ValidationError(m)) && m@ == name_error_message(name@))
            &&& r matches Ok(p) ==> {
                &&& p.spec_name() == name@
                &&& p.spec_stages().len() == words.len() + 2
                &&& forall|i: int| 0 <= i < words.len() ==> is_worded_stage(#[trigger] p.spec_stages()[i + 1], trimmed(words[i]), i as u32)
            }
        }),
{
    match validate_pipeline_name(name) {
        Ok(_) => {},
        Err(m) => {
            return Err(PipelineError::ValidationError(m));
        },
    }
    let built = build_pipeline_stages(stages)?;
    proof {
        crate::text::lemma_split_nonempty(stages@, ',');
    }
    let ghost user = built@;
    let owned = name.to_string();
    assert(owned@ == name@);
    let r = Pipeline::new(owned, built);
    proof {
        if r is Ok {
            let p = r->Ok_0;
            let words = split_on(stages@, ',');
            let n = user.len() as int;
            assert forall|i: int| 0 <= i < words.len() implies is_worded_stage(#[trigger] p.spec_stages()[i + 1], trimmed(words[i]), i as u32) by {
                assert(p.spec_stages().subrange(1, n + 1)[i] == p.spec_stages()[i + 1]);
                assert(user[i] == p.spec_stages()[i + 1]);
            }
        }
    }
    r
}

/// Why a restore cannot write its target.
#[derive(Debug, Clone, Copy, PartialEq, Eq, Structural)]
pub enum RestoreTargetProblem {
    /// The target exists and overwriting was not asked for.
    AlreadyExists,
    /// The target exists, may be overwritten, but is read-only.
    ReadOnly,
}

/// Whether a restore may write its target: a missing target may be
/// written; an existing one only when overwriting was asked for, and then
/// not when it is read-only.
pub fn restore_target_problem(exists: bool, overwrite: bool, read_only: bool) -> (r: Option<RestoreTargetProblem>)
    ensures
        r == (if !exists {
            None
        } else if !overwrite {
            Some(RestoreTargetProblem::AlreadyExists)
        } else if read_only {
            Some(RestoreTargetProblem::ReadOnly)
        } else {
            None
        }),
{
    if !exists {
        None
    } else if !overwrite {
        Some(RestoreTargetProblem::AlreadyExists)
    } else if read_only {
        Some(RestoreTargetProblem::ReadOnly)
    } else {
        None
    }
}

/// What to do about the directory a restore writes into.
#[derive(Debug, Clone, Copy, PartialEq, Eq, Structural)]
pub enum DirectoryAction {
    /// It exists already.
    Nothing,
    /// Create it without asking.
    Create,
    /// Ask the user whether to create it.
    Ask,
}

/// The directory of a restore target is left alone when it exists, created
/// when `mkdir` was given, and otherwise the user is asked.
pub fn directory_action(exists: bool, mkdir: bool) -> (a: DirectoryAction)
    ensures
        a == (if exists {
            DirectoryAction::Nothing
        } else if mkdir {
            DirectoryAction::Create
        } else {
            DirectoryAction::Ask
        }),
{
    if exists {
        DirectoryAction::Nothing
    } else if mkdir {
        DirectoryAction::Create
    } else {
        DirectoryAction::Ask
    }
}

/// Whether an answer to a yes/no question is yes: once trimmed and
/// lowercased it is `y` or `yes`.
pub fn answer_is_yes(answer: &str) -> (b: bool)
    ensures
        b == (lowercased(trimmed(answer@)) == "y"@ || lowercased(trimmed(answer@)) == "yes"@),
{
    let chars = chars_of(answer);
    let t = string_from_chars(trim_chars(&chars));
    let lowered = lowercase(t.as_str());
    string_is(&lowered, "y") || string_is(&lowered, "yes")
}

/// A name that normalizes to one of the command words `help`, `version`,
/// `list`, `show`, `create`, `delete`, `update` or `config` is refused as
/// reserved, whatever else holds of it: the check's answer is the reserved
/// name error quoting the name as given.
pub proof fn lemma_command_words_are_reserved(name: Seq<char>, r: Result<String, String>)
    requires
        ({
            let n = normalized_name(name);
            n == "config"@ || n == "update"@ || n == "delete"@ || n == "create"@ || n == "show"@ || n == "list"@
                || n == "version"@ || n == "help"@
        }),
        pipeline_name_checked(name, r),
    ensures
        r matches Err(m) && m@ == "Pipeline name '"@ + name + "' is reserved. Please choose a different name."@,
{
    reveal_strlit("help");
    reveal_strlit("version");
    reveal_strlit("list");
    reveal_strlit("show");
    reveal_strlit("create");
    reveal_strlit("delete");
    reveal_strlit("update");
    reveal_strlit("config");
    if name.len() == 0 {
        assert(name =~= Seq::<char>::empty());
        assert(vstd::utf8::is_ascii_chars(name));
        assert(lowercased(name) =~= Seq::<char>::empty());
        assert(kept_name_chars(Seq::<char>::empty()) =~= Seq::<char>::empty());
        assert(normalized_name(name).len() == 0);
    }
}

/// A kebab-case name of at least four characters that is not one of the
/// eight command words is its own normalized form and is accepted.
pub proof fn lemma_other_names_are_accepted(name: Seq<char>)
    requires
        normalized_name(name).len() >= 4,
        name.len() > 0,
        ({
            let n = normalized_name(name);
            !(n == "config"@ || n == "update"@ || n == "delete"@ || n == "create"@ || n == "show"@ || n == "list"@
                || n == "version"@ || n == "help"@)
        }),
    ensures
        name_accepted(name),
{
}

} // verus!
