//! A tally of how often each kind of query was made.

use vstd::prelude::*;

verus! {

/// How many times each query was made, by the query's name.
pub struct QueryTally {
    names: Vec<String>,
    counts: Vec<usize>,
}

impl QueryTally {
    #[verifier::type_invariant]
    spec fn well_formed(&self) -> bool {
        &&& self.names@.len() == self.counts@.len()
        &&& forall|i: int, j: int|
            0 <= i < j < self.names@.len() ==> (#[trigger] self.names@[i])@ != (
            #[trigger] self.names@[j])@
    }

    /// Where `name` stands in the tally, if it does.
    spec fn position(&self, name: Seq<char>) -> int {
        choose|i: int| 0 <= i < self.names@.len() && (#[trigger] self.names@[i])@ == name
    }

    /// The names that were counted, each with its number of calls.
    pub closed spec fn view(&self) -> Map<Seq<char>, nat> {
        Map::new(
            |name: Seq<char>|
                exists|i: int| 0 <= i < self.names@.len() && (#[trigger] self.names@[i])@ == name,
            |name: Seq<char>| self.counts@[self.position(name)] as nat,
        )
    }

    /// The number of calls counted for `name`: zero where it was never counted.
    pub open spec fn calls(&self, name: Seq<char>) -> nat {
        if self@.contains_key(name) {
            self@[name]
        } else {
            0
        }
    }

    /// A tally in which nothing was counted yet.
    pub fn new() -> (r: Self)
        ensures
            r@ == Map::<Seq<char>, nat>::empty(),
    {
        let r = QueryTally { names: Vec::new(), counts: Vec::new() };
        assert(r@ =~= Map::<Seq<char>, nat>::empty());
        r
    }

    /// Where `name` stands, or the number of names where it does not.
    fn find(&self, name: &String) -> (r: usize)
        ensures
            r <= self.names@.len(),
            r < self.names@.len() ==> self.names@[r as int]@ == name@,
            r == self.names@.len() ==> !self@.contains_key(name@),
            r < self.names@.len() ==> self@.contains_key(name@) && self@[name@]
                == self.counts@[r as int],
            self.names@.len() == self.counts@.len(),
    {
        proof {
            use_type_invariant(self);
        }
        let mut i: usize = 0;
        while i < self.names.len()
            invariant
                self.well_formed(),
                i <= self.names@.len(),
                forall|k: int| 0 <= k < i ==> (#[trigger] self.names@[k])@ != name@,
            decreases self.names@.len() - i,
        {
            if self.names[i] == *name {
                let ghost p = self.position(name@);
                assert(self.names@[p]@ == name@);
                assert(p == i);
                return i;
            }
            i = i + 1;
        }
        i
    }

    /// The number of calls counted for `func_id`.
    pub fn count(&self, func_id: &str) -> (r: usize)
        ensures
            r == self.calls(func_id@),
    {
        let key = func_id.to_owned();
        let at = self.find(&key);
        if at < self.counts.len() {
            self.counts[at]
        } else {
            0
        }
    }
}

/// Counts one more call of the query `func_id`.
pub fn query_count(tally: &mut QueryTally, func_id: &str)
    requires
        old(tally).calls(func_id@) < usize::MAX,
    ensures
        final(tally)@ == old(tally)@.insert(func_id@, old(tally).calls(func_id@) + 1),
{
    let key = func_id.to_owned();
    let at = tally.find(&key);
    let ghost before = *tally;
    let mut taken = QueryTally::new();
    std::mem::swap(tally, &mut taken);
    proof {
        use_type_invariant(&taken);
    }
    let QueryTally { mut names, mut counts } = taken;
    if at < counts.len() {
        let n: usize = counts[at];
        counts.set(at, n + 1);
        *tally = QueryTally { names, counts };
        proof {
            assert forall|name: Seq<char>| #[trigger] tally.position(name) == before.position(name) by {}
            assert(tally@ =~= before@.insert(func_id@, before.calls(func_id@) + 1));
        }
    } else {
        names.push(key);
        counts.push(1);
        *tally = QueryTally { names, counts };
        proof {
            let goal = before@.insert(func_id@, before.calls(func_id@) + 1);
            assert forall|name: Seq<char>| tally@.contains_key(name) == goal.contains_key(name) by {
                if name == func_id@ {
                    assert(tally.names@[at as int]@ == name);
                } else if before@.contains_key(name) {
                    let i = choose|i: int| 0 <= i < before.names@.len() && (#[trigger] before.names@[i])@ == name;
                    assert(tally.names@[i]@ == name);
                } else if tally@.contains_key(name) {
                    let i = choose|i: int| 0 <= i < tally.names@.len() && (#[trigger] tally.names@[i])@ == name;
                    assert(i < at);
                    assert(before.names@[i]@ == name);
                }
            }
            assert forall|name: Seq<char>| tally@.contains_key(name) implies tally@[name] == goal[name] by {
                let p = tally.position(name);
                assert(tally.names@[p]@ == name);
                if name == func_id@ {
                    assert(p == at);
                } else {
                    assert(p < at);
                    assert(before.names@[p]@ == name);
                    let q = before.position(name);
                    assert(before.names@[q]@ == name);
                    assert(p == q);
                }
            }
            assert(tally@ =~= goal);
        }
    }
}

} // verus!
