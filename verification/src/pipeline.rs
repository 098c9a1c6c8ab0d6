use vstd::prelude::*;
use crate::error::PipelineError;
use crate::parameters::StageParameters;
use crate::stage::{PipelineStage, StageConfiguration, StageType};

verus! {

/// A named, ordered list of stages, framed by a checksum of the input and a
/// checksum of the output.
#[derive(Debug)]
pub struct Pipeline {
    name: String,
    stages: Vec<PipelineStage>,
}

/// Whether `s` is an automatic checksum stage named `name` at position
/// `order`, running SHA-256 with no parameters.
pub open spec fn is_checksum_stage(s: PipelineStage, name: Seq<char>, order: u32) -> bool {
    &&& s.spec_name() == name
    &&& s.spec_stage_type() == StageType::Checksum
    &&& s.spec_configuration().algorithm@ == "sha256"@
    &&& s.spec_configuration().parameters@ == Map::<Seq<char>, Seq<char>>::empty()
    &&& s.spec_order() == order
    &&& s.spec_enabled()
}

/// An automatic checksum stage.
fn checksum_stage(name: &str, order: u32) -> (s: PipelineStage)
    requires
        name@.len() > 0,
    ensures
        is_checksum_stage(s, name@, order),
        s.spec_configuration().chunk_size is None,
        !s.spec_configuration().parallel_processing,
{
    let config = StageConfiguration::new(String::from_str("sha256"), StageParameters::new(), false);
    PipelineStage::new(name.to_string(), StageType::Checksum, config, order).unwrap()
}

impl Pipeline {
    /// The pipeline name.
    pub closed spec fn spec_name(&self) -> Seq<char> {
        self.name@
    }

    /// All stages, the automatic checksum stages included.
    pub closed spec fn spec_stages(&self) -> Seq<PipelineStage> {
        self.stages@
    }

    /// A pipeline running `stages` between a stage `input_checksum` (order
    /// 0) and a stage `output_checksum` (order one past the last). An empty
    /// name or an empty stage list is an `InvalidConfiguration` error.
    pub fn new(name: String, stages: Vec<PipelineStage>) -> (r: Result<Pipeline, PipelineError>)
        requires
            stages@.len() < u32::MAX,
        ensures
            r is Ok <==> (name@.len() > 0 && stages@.len() > 0),
            name@.len() == 0 ==> (r matches Err(PipelineError::InvalidConfiguration(m)) && m@ == "Pipeline name cannot be empty"@),
            name@.len() > 0 && stages@.len() == 0 ==> (r matches Err(PipelineError::InvalidConfiguration(m)) && m@ == "Pipeline must have at least one stage"@),
            r matches Ok(p) ==> {
                let n = stages@.len() as int;
                &&& p.spec_name() == name@
                &&& p.spec_stages().len() == n + 2
                &&& is_checksum_stage(p.spec_stages()[0], "input_checksum"@, 0)
                &&& p.spec_stages().subrange(1, n + 1) == stages@
                &&& is_checksum_stage(p.spec_stages()[n + 1], "output_checksum"@, (n + 1) as u32)
            },
    {
        if name.as_str().is_empty() {
            return Err(PipelineError::InvalidConfiguration(String::from_str("Pipeline name cannot be empty")));
        }
        if stages.len() == 0 {
            return Err(PipelineError::InvalidConfiguration(String::from_str("Pipeline must have at least one stage")));
        }
        let n = stages.len();
        proof {
            reveal_strlit("input_checksum");
            reveal_strlit("output_checksum");
        }
        let mut all: Vec<PipelineStage> = Vec::new();
        all.push(checksum_stage("input_checksum", 0));
        let mut rest = stages;
        let ghost user = rest@;
        let mut tail = Vec::new();
        tail.push(checksum_stage("output_checksum", (n + 1) as u32));
        all.append(&mut rest);
        all.append(&mut tail);
        proof {
            assert(all@.subrange(1, n + 1) =~= user);
        }
        Ok(Pipeline { name, stages: all })
    }

    /// The pipeline name.
    pub fn name(&self) -> (r: &str)
        ensures
            r@ == self.spec_name(),
    {
        self.name.as_str()
    }

    /// All stages, the automatic checksum stages included.
    pub fn stages(&self) -> (r: &Vec<PipelineStage>)
        ensures
            r@ == self.spec_stages(),
    {
        &self.stages
    }
}

} // verus!
