use vstd::prelude::*;
use crate::text::{chars_of, contains_str, decimal_digits, has_substring, lowercase, lowercased, split_chars, split_on, string_is, trim_chars, trim_start_chars, trimmed, u64_to_decimal};

verus! {

/// How many chunks each worker takes: the chunk count divided by the
/// worker count, rounded up.
pub open spec fn chunks_per_worker(chunk_count: nat, worker_count: nat) -> nat {
    ((chunk_count + worker_count - 1) / (worker_count as int)) as nat
}

/// Splits `chunk_count` chunks among `worker_count` workers: worker `i`
/// takes the chunks from `i * per` up to `(i + 1) * per` (or the last
/// chunk), `per` being the count divided by the workers, rounded up; workers
/// left without a chunk get no range.
pub fn worker_chunk_ranges(chunk_count: usize, worker_count: usize) -> (r: Vec<(usize, usize)>)
    requires
        worker_count > 0,
        chunk_count + worker_count <= usize::MAX,
    ensures
        ({
            let per = chunks_per_worker(chunk_count as nat, worker_count as nat);
            &&& r@.len() <= worker_count
            &&& chunk_count == 0 ==> r@.len() == 0
            &&& chunk_count > 0 ==> r@.len() > 0 && r@[0].0 == 0 && r@[r@.len() - 1].1 == chunk_count
            &&& forall|i: int| 0 <= i < r@.len() ==> {
                &&& #[trigger] r@[i].0 == i * per
                &&& r@[i].0 < r@[i].1
                &&& r@[i].1 == (if (i + 1) * per < chunk_count { (i + 1) * per } else { chunk_count as int })
            }
            &&& forall|i: int| 0 <= i < r@.len() - 1 ==> #[trigger] r@[i].1 == r@[i + 1].0
        }),
{
    let per = chunk_count / worker_count + if chunk_count % worker_count == 0 { 0 } else { 1 };
    let ghost p = chunks_per_worker(chunk_count as nat, worker_count as nat);
    proof {
        assert(per == p) by (nonlinear_arith)
            requires
                worker_count > 0,
                per == chunk_count / worker_count + if chunk_count % worker_count == 0 { 0int } else { 1int },
                p == ((chunk_count + worker_count - 1) / (worker_count as int)),
        ;
        assert(per * worker_count >= chunk_count) by (nonlinear_arith)
            requires
                worker_count > 0,
                per == chunk_count / worker_count + if chunk_count % worker_count == 0 { 0int } else { 1int },
        ;
        assert(chunk_count > 0 ==> per >= 1) by (nonlinear_arith)
            requires
                worker_count > 0,
                per == chunk_count / worker_count + if chunk_count % worker_count == 0 { 0int } else { 1int },
        ;
        assert(per * worker_count < chunk_count + worker_count) by (nonlinear_arith)
            requires
                worker_count > 0,
                per == chunk_count / worker_count + if chunk_count % worker_count == 0 { 0int } else { 1int },
        ;
    }
    let mut out: Vec<(usize, usize)> = Vec::new();
    let mut w: usize = 0;
    let mut start: usize = 0;
    while w < worker_count && start < chunk_count
        invariant
            w <= worker_count,
            per == p,
            per * worker_count >= chunk_count,
            per * worker_count < chunk_count + worker_count,
            chunk_count + worker_count <= usize::MAX,
            chunk_count > 0 ==> per >= 1,
            chunk_count == 0 ==> w == 0,
            start == w * per,
            out@.len() == w,
            w > 0 ==> out@[w - 1].1 == (if w * per < chunk_count { w * per } else { chunk_count as int }),
            forall|i: int| 0 <= i < out@.len() ==> {
                &&& #[trigger] out@[i].0 == i * per
                &&& out@[i].0 < out@[i].1
                &&& out@[i].1 == (if (i + 1) * per < chunk_count { (i + 1) * per } else { chunk_count as int })
            },
            forall|i: int| 0 <= i < out@.len() - 1 ==> #[trigger] out@[i].1 == out@[i + 1].0,
        decreases worker_count - w,
    {
        proof {
            assert((w + 1) * per == w * per + per) by (nonlinear_arith);
            assert((w + 1) * per <= worker_count * per) by (nonlinear_arith)
                requires
                    w + 1 <= worker_count,
            ;
        }
        let next = start + per;
        let end = if next < chunk_count { next } else { chunk_count };
        out.push((start, end));
        w = w + 1;
        start = next;
    }
    proof {
        if chunk_count > 0 {
            assert(out@.len() > 0);
            assert(out@[0].0 == 0);
            let k = out@.len() as int;
            if w < worker_count {
                assert(start >= chunk_count);
            } else {
                assert(w * per >= chunk_count) by (nonlinear_arith)
                    requires
                        w == worker_count,
                        per * worker_count >= chunk_count,
                ;
            }
            assert(out@[k - 1].1 == chunk_count);
        }
    }
    out
}

/// A format of a configuration file.
#[derive(Debug, Clone, Copy, PartialEq, Eq, Structural)]
pub enum ConfigFormat {
    Toml,
    Json,
    Yaml,
}

/// The format of a configuration file, by its extension (ignoring case),
/// else by its content: JSON when it starts (after whitespace) with a
/// brace, YAML when it holds `---` or a colon, TOML otherwise.
pub open spec fn config_format_for(extension: Seq<char>, content: Seq<char>) -> ConfigFormat {
    let e = lowercased(extension);
    if e == "toml"@ {
        ConfigFormat::Toml
    } else if e == "json"@ {
        ConfigFormat::Json
    } else if e == "yaml"@ || e == "yml"@ {
        ConfigFormat::Yaml
    } else if trim_start_chars(content).len() > 0 && trim_start_chars(content)[0] == '{' {
        ConfigFormat::Json
    } else if has_substring(content, "---"@) || has_substring(content, ":"@) {
        ConfigFormat::Yaml
    } else {
        ConfigFormat::Toml
    }
}

/// Decides the format of a configuration file.
pub fn config_format(extension: &str, content: &str) -> (f: ConfigFormat)
    ensures
        f == config_format_for(extension@, content@),
{
    let e = lowercase(extension);
    if string_is(&e, "toml") {
        ConfigFormat::Toml
    } else if string_is(&e, "json") {
        ConfigFormat::Json
    } else if string_is(&e, "yaml") || string_is(&e, "yml") {
        ConfigFormat::Yaml
    } else {
        let chars = chars_of(content);
        let trimmed = crate::text::trim_start_of(&chars);
        if trimmed.len() > 0 && trimmed[0] == '{' {
            ConfigFormat::Json
        } else if contains_str(content, "---") || contains_str(content, ":") {
            ConfigFormat::Yaml
        } else {
            ConfigFormat::Toml
        }
    }
}

/// The number of bytes a character takes in UTF-8.
pub open spec fn utf8_width(c: char) -> nat {
    if (c as u32) < 0x80 {
        1
    } else if (c as u32) < 0x800 {
        2
    } else if (c as u32) < 0x10000 {
        3
    } else {
        4
    }
}

/// The number of bytes of the leading whitespace of a line.
pub open spec fn indent_bytes(line: Seq<char>) -> nat
    decreases line.len(),
{
    if line.len() > 0 && crate::text::is_whitespace_char(line[0]) {
        utf8_width(line[0]) + indent_bytes(line.drop_first())
    } else {
        0
    }
}

/// The lines of a text as `str::lines` gives them: split at line feeds,
/// without a final empty piece, each without one trailing carriage return.
pub open spec fn text_lines(s: Seq<char>) -> Seq<Seq<char>> {
    let parts = split_on(s, '\n');
    let kept = if parts.last().len() == 0 { parts.drop_last() } else { parts };
    Seq::new(kept.len(), |i: int| if kept[i].len() > 0 && kept[i].last() == '\r' { kept[i].drop_last() } else { kept[i] })
}

/// Whether a line carries a key whose indentation is odd: a line that is
/// not blank, not a comment, holds a colon, and starts with an odd number of
/// bytes of whitespace.
pub open spec fn badly_indented(line: Seq<char>) -> bool {
    let t = trimmed(line);
    &&& t.len() > 0
    &&& t[0] != '#'
    &&& has_substring(t, ":"@)
    &&& indent_bytes(line) % 2 == 1
}

/// Whether the leading whitespace of a line takes an odd number of bytes.
fn odd_indent(line: &Vec<char>) -> (odd: bool)
    ensures
        odd == (indent_bytes(line@) % 2 == 1),
{
    let mut odd = false;
    let ghost mut n: nat = 0;
    let mut i: usize = 0;
    proof {
        assert(line@.subrange(0, line@.len() as int) =~= line@);
    }
    while i < line.len()
        invariant
            i <= line@.len(),
            n + indent_bytes(line@.subrange(i as int, line@.len() as int)) == indent_bytes(line@),
            odd == (n % 2 == 1),
        decreases line@.len() - i,
    {
        let c = line[i];
        let ghost t = line@.subrange(i as int, line@.len() as int);
        if !crate::text::whitespace_char(c) {
            proof {
                assert(t[0] == c);
            }
            return odd;
        }
        let wide_odd = (c as u32) < 0x80 || ((c as u32) >= 0x800 && (c as u32) < 0x10000);
        proof {
            assert(t[0] == c);
            assert(t.drop_first() =~= line@.subrange(i as int + 1, line@.len() as int));
            n = n + utf8_width(c);
        }
        odd = odd != wide_odd;
        i = i + 1;
    }
    proof {
        assert(line@.subrange(i as int, line@.len() as int) =~= Seq::<char>::empty());
    }
    odd
}

/// Checks the indentation of a YAML configuration text: a line holding a
/// key must be indented by an even number of bytes; the first line that is
/// not is an error naming its (1-based) number. Otherwise the number of
/// lines is returned.
pub fn check_yaml_indentation(content: &str) -> (r: Result<usize, String>)
    ensures
        ({
            let lines = text_lines(content@);
            &&& r matches Ok(n) ==> n == lines.len() && forall|i: int| 0 <= i < lines.len() ==> !badly_indented(#[trigger] lines[i])
            &&& r matches Err(m) ==> exists|i: int| {
                &&& 0 <= i < lines.len()
                &&& #[trigger] badly_indented(lines[i])
                &&& forall|j: int| 0 <= j < i ==> !badly_indented(#[trigger] lines[j])
                &&& m@ == "Invalid YAML indentation at line "@ + decimal_digits((i + 1) as nat) + ": should be multiple of 2"@
            }
            &&& r is Ok <==> forall|i: int| 0 <= i < lines.len() ==> !badly_indented(#[trigger] lines[i])
        }),
{
    let all = chars_of(content);
    let parts = split_chars(&all, '\n');
    proof {
        crate::text::lemma_split_nonempty(content@, '\n');
    }
    let count = if parts[parts.len() - 1].len() == 0 { parts.len() - 1 } else { parts.len() };
    let ghost sp = split_on(content@, '\n');
    let ghost kept = if sp.last().len() == 0 { sp.drop_last() } else { sp };
    let ghost lines = text_lines(content@);
    assert(lines.len() == count);
    let mut i: usize = 0;
    while i < count
        invariant
            i <= count,
            count == lines.len(),
            kept.len() == count,
            lines == text_lines(content@),
            sp == split_on(content@, '\n'),
            kept == (if sp.last().len() == 0 { sp.drop_last() } else { sp }),
            parts@.len() == sp.len(),
            count <= parts@.len(),
            forall|k: int| 0 <= k < parts@.len() ==> #[trigger] parts@[k]@ == sp[k],
            forall|j: int| 0 <= j < i ==> !badly_indented(#[trigger] lines[j]),
        decreases count - i,
    {
        let piece = &parts[i];
        let mut line: Vec<char> = piece.clone();
        let n = line.len();
        if n > 0 && line[n - 1] == '\r' {
            line.pop();
        }
        proof {
            assert(kept[i as int] == sp[i as int]);
            assert(line@ =~= lines[i as int]);
        }
        let t = trim_chars(&line);
        if t.len() > 0 && t[0] != '#' {
            let text = crate::text::string_from_chars(t.clone());
            if contains_str(text.as_str(), ":") {
                if odd_indent(&line) {
                    let number = u64_to_decimal(i as u64 + 1);
                    let mut m = String::from_str("Invalid YAML indentation at line ");
                    m.append(number.as_str());
                    m.append(": should be multiple of 2");
                    proof {
                        assert(badly_indented(lines[i as int]));
                    }
                    return Err(m);
                }
            }
        }
        i = i + 1;
    }
    Ok(count)
}

/// What a benchmark run varies.
#[derive(Debug, Clone, Copy, PartialEq, Eq, Structural)]
pub enum BenchmarkKind {
    /// The recommended chunk size and worker count
    Adaptive,
    /// Another chunk size with the recommended worker count
    ChunkVariation,
    /// Another worker count with the recommended chunk size
    WorkerVariation,
}

/// One configuration a benchmark measures: a file size and a chunk size in
/// MiB, a worker count, and what it varies.
#[derive(Debug, Clone, Copy, PartialEq, Eq, Structural)]
pub struct BenchmarkConfig {
    pub file_size_mb: usize,
    pub chunk_size_mb: usize,
    pub worker_count: usize,
    pub kind: BenchmarkKind,
}

/// The file sizes (MiB) benchmarked by default, up to 2 GiB.
pub open spec fn default_benchmark_sizes() -> Seq<usize> {
    seq![1usize, 5, 10, 50, 100, 500, 1000, 2048]
}

/// The chunk sizes (MiB) a benchmark tries.
pub open spec fn benchmark_chunk_sizes() -> Seq<usize> {
    seq![1usize, 2, 4, 8, 16, 32, 64, 128]
}

/// The worker counts from 1 to `max`.
pub open spec fn worker_counts_up_to(max: usize) -> Seq<usize> {
    Seq::new(max as nat, |i: int| (i + 1) as usize)
}

/// Whether a value differs from `x`.
pub open spec fn other_than(x: usize) -> spec_fn(usize) -> bool {
    |v: usize| v != x
}

/// The configuration trying chunk size `c` (MiB) with `workers` workers.
pub open spec fn chunk_variation(file_size_mb: usize, workers: usize) -> spec_fn(usize) -> BenchmarkConfig {
    |c: usize| BenchmarkConfig { file_size_mb, chunk_size_mb: c, worker_count: workers, kind: BenchmarkKind::ChunkVariation }
}

/// The configuration trying `w` workers with chunk size `chunk_mb` (MiB).
pub open spec fn worker_variation(file_size_mb: usize, chunk_mb: usize) -> spec_fn(usize) -> BenchmarkConfig {
    |w: usize| BenchmarkConfig { file_size_mb, chunk_size_mb: chunk_mb, worker_count: w, kind: BenchmarkKind::WorkerVariation }
}

/// The configurations measured for one file size: the recommended one, then
/// every other chunk size of the list with the recommended worker count,
/// then every other worker count from 1 to `max_workers` with the
/// recommended chunk size.
pub open spec fn planned_benchmarks(file_size_mb: usize, chunk_mb: usize, workers: usize, max_workers: usize) -> Seq<
    BenchmarkConfig,
> {
    seq![BenchmarkConfig { file_size_mb, chunk_size_mb: chunk_mb, worker_count: workers, kind: BenchmarkKind::Adaptive }]
        + benchmark_chunk_sizes().filter(other_than(chunk_mb)).map_values(chunk_variation(file_size_mb, workers))
        + worker_counts_up_to(max_workers).filter(other_than(workers)).map_values(worker_variation(file_size_mb, chunk_mb))
}

/// The file sizes (MiB) to benchmark: the one asked for, or the default
/// list when none (zero) is asked for.
pub fn benchmark_sizes(size_mb: usize) -> (v: Vec<usize>)
    ensures
        v@ == (if size_mb > 0 { seq![size_mb] } else { default_benchmark_sizes() }),
{
    if size_mb > 0 {
        let mut v: Vec<usize> = Vec::new();
        v.push(size_mb);
        proof {
            assert(v@ =~= seq![size_mb]);
        }
        v
    } else {
        let v: Vec<usize> = vec![1usize, 5, 10, 50, 100, 500, 1000, 2048];
        proof {
            assert(v@ =~= default_benchmark_sizes());
        }
        v
    }
}

/// The most workers a benchmark tries: twice the available cores, at most
/// sixteen.
pub fn benchmark_max_workers(available_cores: usize) -> (n: usize)
    ensures
        n == (if 2 * available_cores < 16 { 2 * available_cores } else { 16 }),
{
    if available_cores < 8 {
        available_cores * 2
    } else {
        16
    }
}

/// The configurations to measure for one file size, in the order
/// `planned_benchmarks` gives.
pub fn benchmark_configurations(file_size_mb: usize, chunk_mb: usize, workers: usize, max_workers: usize) -> (v: Vec<
    BenchmarkConfig,
>)
    ensures
        v@ == planned_benchmarks(file_size_mb, chunk_mb, workers, max_workers),
{
    let mut v: Vec<BenchmarkConfig> = Vec::new();
    v.push(BenchmarkConfig { file_size_mb, chunk_size_mb: chunk_mb, worker_count: workers, kind: BenchmarkKind::Adaptive });
    let ghost first = v@;
    let sizes: Vec<usize> = vec![1usize, 2, 4, 8, 16, 32, 64, 128];
    let ghost ladder = benchmark_chunk_sizes();
    let ghost keep_chunk = other_than(chunk_mb);
    let ghost as_chunk = chunk_variation(file_size_mb, workers);
    proof {
        assert(sizes@ =~= ladder);
        assert(ladder.take(0) =~= Seq::<usize>::empty());
        assert(v@ =~= first + ladder.take(0).filter(keep_chunk).map_values(as_chunk));
    }
    let mut i: usize = 0;
    while i < sizes.len()
        invariant
            i <= sizes@.len(),
            sizes@ == ladder,
            v@ == first + ladder.take(i as int).filter(keep_chunk).map_values(as_chunk),
            keep_chunk == other_than(chunk_mb),
            as_chunk == chunk_variation(file_size_mb, workers),
        decreases sizes@.len() - i,
    {
        let c = sizes[i];
        proof {
            assert(ladder.take(i as int + 1) =~= ladder.take(i as int).push(c));
            ladder.take(i as int).lemma_filter_push(c, keep_chunk);
        }
        if c != chunk_mb {
            v.push(BenchmarkConfig { file_size_mb, chunk_size_mb: c, worker_count: workers, kind: BenchmarkKind::ChunkVariation });
            proof {
                let a = ladder.take(i as int).filter(keep_chunk);
                assert(ladder.take(i as int + 1).filter(keep_chunk) == a.push(c));
                assert(a.push(c).map_values(as_chunk) =~= a.map_values(as_chunk).push(as_chunk(c)));
            }
        } else {
            proof {
                assert(ladder.take(i as int + 1).filter(keep_chunk) == ladder.take(i as int).filter(keep_chunk));
            }
        }
        i = i + 1;
    }
    proof {
        assert(ladder.take(ladder.len() as int) =~= ladder);
    }
    let ghost second = v@;
    proof {
        assert(first =~= seq![BenchmarkConfig { file_size_mb, chunk_size_mb: chunk_mb, worker_count: workers, kind: BenchmarkKind::Adaptive }]);
    }
    let ghost counts = worker_counts_up_to(max_workers);
    let ghost keep_workers = other_than(workers);
    let ghost as_workers = worker_variation(file_size_mb, chunk_mb);
    proof {
        assert(counts.take(0) =~= Seq::<usize>::empty());
        assert(v@ =~= second + counts.take(0).filter(keep_workers).map_values(as_workers));
    }
    let mut w: usize = 0;
    while w < max_workers
        invariant
            w <= max_workers,
            counts == worker_counts_up_to(max_workers),
            v@ == second + counts.take(w as int).filter(keep_workers).map_values(as_workers),
            keep_workers == other_than(workers),
            second == first + ladder.filter(keep_chunk).map_values(as_chunk),
            first == seq![BenchmarkConfig { file_size_mb, chunk_size_mb: chunk_mb, worker_count: workers, kind: BenchmarkKind::Adaptive }],
            ladder == benchmark_chunk_sizes(),
            keep_chunk == other_than(chunk_mb),
            as_chunk == chunk_variation(file_size_mb, workers),
            as_workers == worker_variation(file_size_mb, chunk_mb),
        decreases max_workers - w,
    {
        let n = w + 1;
        proof {
            assert(counts.take(w as int + 1) =~= counts.take(w as int).push(n));
            counts.take(w as int).lemma_filter_push(n, keep_workers);
        }
        if n != workers {
            v.push(BenchmarkConfig { file_size_mb, chunk_size_mb: chunk_mb, worker_count: n, kind: BenchmarkKind::WorkerVariation });
            proof {
                let a = counts.take(w as int).filter(keep_workers);
                assert(counts.take(w as int + 1).filter(keep_workers) == a.push(n));
                assert(a.push(n).map_values(as_workers) =~= a.map_values(as_workers).push(as_workers(n)));
            }
        } else {
            proof {
                assert(counts.take(w as int + 1).filter(keep_workers) == counts.take(w as int).filter(keep_workers));
            }
        }
        w = w + 1;
    }
    proof {
        assert(counts.take(max_workers as int) =~= counts);
        assert(v@ =~= planned_benchmarks(file_size_mb, chunk_mb, workers, max_workers));
    }
    v
}

} // verus!
