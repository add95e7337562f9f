//! Identifying which network a chain specification targets.
//!
//! A node decides behaviour by the identifier of the chain it was
//! configured for; the identifier's spelling is the whole signal.

use vstd::prelude::*;
use vstd::string::StrSliceExecFns;

verus! {

/// Whether `p` spells the beginning of `s`.
pub open spec fn is_prefix(p: Seq<char>, s: Seq<char>) -> bool {
    p.len() <= s.len() && s.take(p.len() as int) == p
}

/// Whether `p` spells the end of `s`.
pub open spec fn is_suffix(p: Seq<char>, s: Seq<char>) -> bool {
    p.len() <= s.len() && s.skip((s.len() - p.len()) as int) == p
}

/// Whether the characters of `s` from `at` on begin with `p`.
#[verifier::loop_isolation(false)]
fn str_matches_at(s: &str, at: usize, p: &str) -> (r: bool)
    requires
        at + p@.len() <= s@.len(),
        s@.len() <= usize::MAX,
    ensures
        r == (s@.subrange(at as int, at + p@.len()) == p@),
{
    let p_len = p.unicode_len();
    let mut i: usize = 0;
    while i < p_len
        invariant
            i <= p@.len(),
            p_len == p@.len(),
            at + p@.len() <= s@.len(),
            forall|j: int| 0 <= j < i ==> s@[at + j] == p@[j],
        decreases p@.len() - i,
    {
        if s.get_char(at + i) != p.get_char(i) {
            proof {
                assert(s@.subrange(at as int, at + p@.len())[i as int] != p@[i as int]);
            }
            return false;
        }
        i = i + 1;
    }
    proof {
        assert(s@.subrange(at as int, at + p@.len()) =~= p@);
    }
    true
}

/// Whether `s` begins with `p`.
pub fn str_has_prefix(s: &str, p: &str) -> (r: bool)
    ensures
        r == is_prefix(p@, s@),
{
    let s_len = s.unicode_len();
    let p_len = p.unicode_len();
    if p_len > s_len {
        return false;
    }
    let r = str_matches_at(s, 0, p);
    proof {
        assert(s@.subrange(0, p@.len() as int) =~= s@.take(p@.len() as int));
    }
    r
}

/// Whether `s` ends with `p`.
pub fn str_has_suffix(s: &str, p: &str) -> (r: bool)
    ensures
        r == is_suffix(p@, s@),
{
    let s_len = s.unicode_len();
    let p_len = p.unicode_len();
    if p_len > s_len {
        return false;
    }
    let r = str_matches_at(s, s_len - p_len, p);
    proof {
        assert(s@.subrange((s@.len() - p@.len()) as int, s@.len() - p@.len() + p@.len())
            =~= s@.skip((s@.len() - p@.len()) as int));
    }
    r
}

/// Can be asked of a chain's identity which network it targets.
pub trait IdentifyVariant {
    /// The chain identifier the answers are read from.
    spec fn spec_id(&self) -> Seq<char>;

    /// Whether this identifies the Selendra network.
    fn is_selendra(&self) -> (r: bool)
        ensures
            r == (is_prefix("selendra"@, self.spec_id()) || is_prefix("sel"@, self.spec_id()));

    /// Whether this identifies a development network.
    fn is_dev(&self) -> (r: bool)
        ensures
            r == is_suffix("dev"@, self.spec_id());
}

/// A chain's identity as its configuration spells it.
pub struct ChainIdentity {
    id: String,
}

impl ChainIdentity {
    /// Wraps the given chain identifier.
    pub fn new(id: String) -> (r: ChainIdentity)
        ensures
            r.spec_id() == id@,
    {
        ChainIdentity { id }
    }
}

impl IdentifyVariant for ChainIdentity {
    closed spec fn spec_id(&self) -> Seq<char> {
        self.id@
    }

    fn is_selendra(&self) -> (r: bool) {
        str_has_prefix(self.id.as_str(), "selendra") || str_has_prefix(self.id.as_str(), "sel")
    }

    fn is_dev(&self) -> (r: bool) {
        str_has_suffix(self.id.as_str(), "dev")
    }
}

} // verus!
