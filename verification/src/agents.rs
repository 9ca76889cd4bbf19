//! Capability providers: the extension point for concrete actions.

use crate::errors::MeshError;
use vstd::prelude::*;
use vstd::string::StringSliceAdditionalSpecFns;

verus! {

/// The structured context handed to every capability invocation: the plan
/// and node being executed and copies of the upstream outputs it needs.
#[derive(Debug, Clone)]
pub struct Context {
    pub plan_id: String,
    pub node_id: String,
    pub upstream: Vec<(String, String)>,
}

/// A named, stateless operation invocable by the engine. Concrete providers
/// (planning, infrastructure actions, transcription) all satisfy this one
/// contract: take input plus a context, return output or a typed failure.
pub trait Agent {
    /// The capability name this provider registers under.
    fn name(&self) -> &str;

    /// Run the operation on the given input.
    fn execute(&self, input: &str, context: &Context) -> Result<String, MeshError>;
}

/// `p` occurs in `s` starting at byte offset `i`.
pub open spec fn is_sub_at(s: Seq<u8>, p: Seq<u8>, i: int) -> bool {
    0 <= i && i + p.len() <= s.len() && s.subrange(i, i + p.len() as int) == p
}

/// `p` occurs somewhere in `s`.
pub open spec fn has_sub(s: Seq<u8>, p: Seq<u8>) -> bool {
    exists|i: int| is_sub_at(s, p, i)
}

/// The bytes of `p` match `s` at offset `i`.
fn match_at(s: &[u8], p: &[u8], i: usize) -> (r: bool)
    requires
        i + p@.len() <= s@.len(),
    ensures
        r == is_sub_at(s@, p@, i as int),
{
    let n = s.len();
    let m = p.len();
    let mut k: usize = 0;
    while k < m
        invariant
            n == s@.len(),
            m == p@.len(),
            i + m <= s@.len(),
            k <= m,
            forall|k0: int| 0 <= k0 < k ==> s@[i + k0] == p@[k0],
        decreases m - k,
    {
        if s[i + k] != p[k] {
            assert(s@.subrange(i as int, i + m as int)[k as int] == s@[i + k]);
            return false;
        }
        k += 1;
    }
    assert(s@.subrange(i as int, i + m as int) =~= p@);
    true
}

/// Whether `p` occurs as a contiguous byte sequence in `s`.
fn contains_bytes(s: &[u8], p: &[u8]) -> (r: bool)
    ensures
        r == has_sub(s@, p@),
{
    let n = s.len();
    let m = p.len();
    if m > n {
        assert(!has_sub(s@, p@));
        return false;
    }
    if m == 0 {
        assert(is_sub_at(s@, p@, 0)) by {
            assert(s@.subrange(0, 0) =~= p@);
        }
        return true;
    }
    let mut i: usize = 0;
    while i <= n - m
        invariant
            n == s@.len(),
            m == p@.len(),
            0 < m <= n,
            i <= n - m + 1,
            forall|i0: int| 0 <= i0 < i ==> !is_sub_at(s@, p@, i0),
        decreases n - i,
    {
        if match_at(s, p, i) {
            assert(has_sub(s@, p@));
            return true;
        }
        i += 1;
    }
    assert forall|i0: int| !is_sub_at(s@, p@, i0) by {
        if 0 <= i0 <= n - m {
            assert(!is_sub_at(s@, p@, i0));
        }
    }
    false
}

/// Whether the pattern occurs in the input, by bytes.
fn contains_str(s: &str, p: &str) -> (r: bool)
    ensures
        r == has_sub(s.spec_bytes(), p.spec_bytes()),
{
    contains_bytes(s.as_bytes(), p.as_bytes())
}

/// The input asks to scale the database.
pub open spec fn wants_scale_db(input: &str) -> bool {
    has_sub(input.spec_bytes(), "scale".spec_bytes()) && has_sub(
        input.spec_bytes(),
        "database".spec_bytes(),
    )
}

/// The plan produced for a scale-the-database intent: check the load, then
/// scale, in dependency order.
pub open spec fn scale_plan_text() -> Seq<char> {
    "{\"plan_id\":\"scale-database\",\"steps\":[{\"id\":\"check_db_load\",\"action\":\"check_db_load\",\"deps\":[]},{\"id\":\"scale_db\",\"action\":\"scale_db\",\"deps\":[\"check_db_load\"]}]}"@
}

/// The fallback plan for any other intent: a single default check.
pub open spec fn default_plan_text() -> Seq<char> {
    "{\"plan_id\":\"adhoc\",\"steps\":[{\"id\":\"default_check\",\"action\":\"default_check\",\"deps\":[]}]}"@
}

/// Rule-based planner: turns a natural-language intent into a plan in the
/// wire format.
#[derive(Debug)]
pub struct PlannerAgent;

impl PlannerAgent {
    pub fn new() -> PlannerAgent {
        PlannerAgent
    }

    /// Compile an intent into a plan. A request that mentions both "scale"
    /// and "database" compiles to the two-step scale-database plan; anything
    /// else compiles to the default check. Never fails.
    pub fn plan(&self, nl_input: &str) -> (r: Result<String, MeshError>)
        ensures
            r is Ok,
            wants_scale_db(nl_input) ==> (r->Ok_0)@ == scale_plan_text(),
            !wants_scale_db(nl_input) ==> (r->Ok_0)@ == default_plan_text(),
    {
        let text =
            if contains_str(nl_input, "scale") && contains_str(nl_input, "database") {
            "{\"plan_id\":\"scale-database\",\"steps\":[{\"id\":\"check_db_load\",\"action\":\"check_db_load\",\"deps\":[]},{\"id\":\"scale_db\",\"action\":\"scale_db\",\"deps\":[\"check_db_load\"]}]}"
        } else {
            "{\"plan_id\":\"adhoc\",\"steps\":[{\"id\":\"default_check\",\"action\":\"default_check\",\"deps\":[]}]}"
        };
        Ok(text.to_owned())
    }
}

impl Agent for PlannerAgent {
    /// Registered as "Planner".
    fn name(&self) -> (r: &str)
        ensures
            r@ == "Planner"@,
    {
        "Planner"
    }

    /// Exactly `plan` on the input: the context cannot influence the result.
    fn execute(&self, input: &str, _context: &Context) -> (r: Result<String, MeshError>)
        ensures
            r is Ok,
            wants_scale_db(input) ==> (r->Ok_0)@ == scale_plan_text(),
            !wants_scale_db(input) ==> (r->Ok_0)@ == default_plan_text(),
    {
        self.plan(input)
    }
}

/// Infrastructure-action provider. The decisions it owns live here; the
/// container calls themselves are performed by the process that hosts it.
#[derive(Debug)]
pub struct InfraAgent;

impl InfraAgent {
    pub fn new() -> InfraAgent {
        InfraAgent
    }

    /// The name this provider registers under.
    pub fn provider_name(&self) -> (r: &str)
        ensures
            r@ == "Infra"@,
    {
        "Infra"
    }
}

} // verus!
