//! Next-episode preloading: the once-only gate per preload key and the
//! key construction.

use vstd::prelude::*;

use crate::strutil::{push_char, str_eq, u64_digits, u64_to_string};

verus! {

/// Whether a key is among the seen ones.
pub open spec fn spec_seen(seen: Seq<String>, key: Seq<char>) -> bool {
    exists|i: int| 0 <= i < seen.len() && seen[i]@ == key
}

/// The once-only gate: remembers every preload key it has admitted.
pub struct PreloadGate {
    pub seen: Vec<String>,
}

impl Default for PreloadGate {
    /// A gate that has admitted nothing.
    fn default() -> (r: PreloadGate)
        ensures
            r.seen@.len() == 0,
    {
        PreloadGate { seen: Vec::new() }
    }
}

impl PreloadGate {
    /// A gate that has admitted nothing.
    pub fn new() -> (r: PreloadGate)
        ensures
            r.seen@.len() == 0,
    {
        PreloadGate { seen: Vec::new() }
    }

    /// Admits a key the first time and refuses it afterwards.
    pub fn should_preload(&mut self, key: &str) -> (r: bool)
        ensures
            r == !spec_seen(old(self).seen@, key@),
            forall|k: Seq<char>|
                #[trigger] spec_seen(final(self).seen@, k) <==> (spec_seen(old(self).seen@, k)
                    || k == key@),
    {
        let n = self.seen.len();
        let mut i: usize = 0;
        while i < n
            invariant
                n == self.seen@.len(),
                0 <= i <= n,
                forall|j: int| 0 <= j < i ==> self.seen@[j]@ != key@,
            decreases n - i,
        {
            if str_eq(self.seen[i].as_str(), key) {
                proof {
                    assert(spec_seen(self.seen@, key@));
                    assert forall|k: Seq<char>| #[trigger]
                        spec_seen(self.seen@, k) <==> (spec_seen(self.seen@, k) || k == key@) by {
                        if k == key@ {
                            assert(self.seen@[i as int]@ == k);
                        }
                    }
                }
                return false;
            }
            i += 1;
        }
        let ghost seen0 = self.seen@;
        self.seen.push(key.to_owned());
        proof {
            assert forall|k: Seq<char>| #[trigger]
                spec_seen(self.seen@, k) <==> (spec_seen(seen0, k) || k == key@) by {
                if spec_seen(self.seen@, k) {
                    let j = choose|j: int| 0 <= j < self.seen@.len() && self.seen@[j]@ == k;
                    if j < seen0.len() {
                        assert(seen0[j]@ == k);
                    }
                }
                if spec_seen(seen0, k) {
                    let j = choose|j: int| 0 <= j < seen0.len() && seen0[j]@ == k;
                    assert(self.seen@[j]@ == k);
                }
                if k == key@ {
                    assert(self.seen@[self.seen@.len() - 1]@ == k);
                }
            }
        }
        true
    }
}

/// The preload key of one upcoming episode: source, id and episode number
/// joined with underscores.
pub fn build_preload_key(source: &str, id: &str, next_episode: u32) -> (r: String)
    ensures
        r@ == source@ + seq!['_'] + id@ + seq!['_'] + u64_digits(next_episode as u64),
{
    let mut r = source.to_owned();
    push_char(&mut r, '_');
    r.append(id);
    push_char(&mut r, '_');
    let digits = u64_to_string(next_episode as u64);
    r.append(digits.as_str());
    proof {
        assert(r@ =~= source@ + seq!['_'] + id@ + seq!['_'] + u64_digits(next_episode as u64));
    }
    r
}

/// Whether a preload was started for this call.
pub struct PreloadDecision {
    pub did_preload: bool,
}

} // verus!
