//! The Connection Registry: the authoritative set of live connections,
//! keyed by the peer's stable identity (its address, held as bytes).
//! Keys are unique; insertion of a tracked identity and removal of an
//! untracked one are no-ops, so teardown is idempotent.

use vstd::prelude::*;

verus! {

/// The views of a sequence of byte vectors.
pub open spec fn views_of(v: Seq<Vec<u8>>) -> Seq<Seq<u8>> {
    v.map_values(|n: Vec<u8>| n@)
}

/// No identity occurs twice.
pub open spec fn unique_names(s: Seq<Seq<u8>>) -> bool {
    forall|i: int, j: int|
        0 <= i < s.len() && 0 <= j < s.len() && i != j ==> s[i] != s[j]
}

/// The predicate that keeps every identity but `name`. Naming it gives
/// every contract and lemma the same function value to speak about.
pub open spec fn not_name(name: Seq<u8>) -> spec_fn(Seq<u8>) -> bool {
    |n: Seq<u8>| n != name
}

/// Byte-for-byte equality of two byte vectors.
pub fn bytes_eq(a: &Vec<u8>, b: &Vec<u8>) -> (r: bool)
    ensures
        r == (a@ == b@),
{
    if a.len() != b.len() {
        return false;
    }
    let mut i: usize = 0;
    while i < a.len()
        invariant
            i <= a.len(),
            a@.len() == b@.len(),
            forall|k: int| 0 <= k < i ==> a@[k] == b@[k],
        decreases a.len() - i,
    {
        if a[i] != b[i] {
            return false;
        }
        i = i + 1;
    }
    proof {
        assert(a@ =~= b@);
    }
    true
}

/// Taking one more element extends a filtered prefix by at most that element.
proof fn lemma_filter_take_step(s: Seq<Seq<u8>>, pred: spec_fn(Seq<u8>) -> bool, i: int)
    requires
        0 <= i < s.len(),
    ensures
        s.take(i + 1).filter(pred) == if pred(s[i]) {
            s.take(i).filter(pred).push(s[i])
        } else {
            s.take(i).filter(pred)
        },
{
    reveal(Seq::filter);
    assert(s.take(i + 1).drop_last() =~= s.take(i));
    assert(s.take(i + 1).last() == s[i]);
}

/// Whatever the filter keeps was already in the sequence.
pub(crate) proof fn lemma_filter_member(s: Seq<Seq<u8>>, pred: spec_fn(Seq<u8>) -> bool, x: Seq<u8>)
    requires
        s.filter(pred).contains(x),
    ensures
        s.contains(x),
    decreases s.len(),
{
    reveal(Seq::filter);
    if s.len() > 0 {
        if pred(s.last()) && x == s.last() {
            assert(s[s.len() - 1] == x);
        } else {
            if pred(s.last()) {
                let f = s.drop_last().filter(pred).push(s.last());
                let k = choose|k: int| 0 <= k < f.len() && f[k] == x;
                assert(s.drop_last().filter(pred)[k] == x);
            }
            lemma_filter_member(s.drop_last(), pred, x);
            let k = choose|k: int| 0 <= k < s.drop_last().len() && s.drop_last()[k] == x;
            assert(s[k] == x);
        }
    }
}

/// Filtering keeps uniqueness of identities.
pub(crate) proof fn lemma_filter_unique(s: Seq<Seq<u8>>, pred: spec_fn(Seq<u8>) -> bool)
    requires
        unique_names(s),
    ensures
        unique_names(s.filter(pred)),
    decreases s.len(),
{
    reveal(Seq::filter);
    if s.len() > 0 {
        assert(unique_names(s.drop_last())) by {
            assert(forall|i: int|
                0 <= i < s.drop_last().len() ==> s.drop_last()[i] == s[i]);
        }
        lemma_filter_unique(s.drop_last(), pred);
        if pred(s.last()) {
            let f = s.drop_last().filter(pred);
            assert(!f.contains(s.last())) by {
                if f.contains(s.last()) {
                    lemma_filter_member(s.drop_last(), pred, s.last());
                    let k = choose|k: int|
                        0 <= k < s.drop_last().len() && s.drop_last()[k] == s.last();
                    assert(s[k] == s[s.len() - 1]);
                }
            }
        }
    }
}

/// A filter that rejects nothing returns the sequence unchanged.
pub(crate) proof fn lemma_filter_all(s: Seq<Seq<u8>>, pred: spec_fn(Seq<u8>) -> bool)
    requires
        forall|i: int| 0 <= i < s.len() ==> pred(s[i]),
    ensures
        s.filter(pred) == s,
    decreases s.len(),
{
    reveal(Seq::filter);
    if s.len() > 0 {
        assert(forall|i: int|
            0 <= i < s.drop_last().len() ==> s.drop_last()[i] == s[i]);
        lemma_filter_all(s.drop_last(), pred);
        assert(s.filter(pred) =~= s);
    }
}

/// The registry of live connections. Its view is the sequence of tracked
/// identities; well-formedness says no identity is tracked twice.
pub struct Registry {
    names: Vec<Vec<u8>>,
}

impl View for Registry {
    type V = Seq<Seq<u8>>;

    closed spec fn view(&self) -> Seq<Seq<u8>> {
        views_of(self.names@)
    }
}

impl Registry {
    /// Each live connection is tracked under exactly one identity entry.
    pub open spec fn wf(&self) -> bool {
        unique_names(self@)
    }

    /// An empty registry.
    pub fn new() -> (r: Registry)
        ensures
            r@ == Seq::<Seq<u8>>::empty(),
            r.wf(),
    {
        let r = Registry { names: Vec::new() };
        proof {
            assert(r@ =~= Seq::<Seq<u8>>::empty());
        }
        r
    }

    /// How many connections are tracked.
    pub fn len(&self) -> (n: usize)
        ensures
            n == self@.len(),
    {
        self.names.len()
    }

    /// Whether `name` is a tracked identity.
    pub fn contains(&self, name: &Vec<u8>) -> (r: bool)
        ensures
            r == self@.contains(name@),
    {
        let mut i: usize = 0;
        while i < self.names.len()
            invariant
                i <= self.names.len(),
                forall|k: int| 0 <= k < i ==> self@[k] != name@,
            decreases self.names.len() - i,
        {
            if bytes_eq(&self.names[i], name) {
                assert(self@[i as int] == name@);
                return true;
            }
            i = i + 1;
        }
        false
    }

    /// Track `name`. A new identity is appended; one already tracked
    /// leaves the registry unchanged.
    pub fn insert(&mut self, name: Vec<u8>)
        requires
            old(self).wf(),
        ensures
            final(self).wf(),
            old(self)@.contains(name@) ==> final(self)@ == old(self)@,
            !old(self)@.contains(name@) ==> final(self)@ == old(self)@.push(name@),
    {
        if !self.contains(&name) {
            let ghost pre = self@;
            let ghost n = name@;
            self.names.push(name);
            proof {
                assert(self@ =~= pre.push(n));
                assert forall|i: int, j: int|
                    0 <= i < self@.len() && 0 <= j < self@.len() && i != j implies self@[i]
                    != self@[j] by {
                    if i == pre.len() {
                        assert(pre[j] != n);
                    } else if j == pre.len() {
                        assert(pre[i] != n);
                    }
                }
            }
        }
    }

    /// Stop tracking `name`. Removing an untracked identity is a no-op,
    /// so a duplicate teardown does nothing.
    pub fn remove(&mut self, name: &Vec<u8>)
        requires
            old(self).wf(),
        ensures
            final(self).wf(),
            final(self)@ == old(self)@.filter(not_name(name@)),
            !old(self)@.contains(name@) ==> final(self)@ == old(self)@,
    {
        let ghost pred = not_name(name@);
        let mut kept: Vec<Vec<u8>> = Vec::new();
        proof {
            reveal(Seq::filter);
            assert(self@.take(0).filter(pred) =~= views_of(kept@));
        }
        let mut i: usize = 0;
        while i < self.names.len()
            invariant
                i <= self.names.len(),
                views_of(kept@) == self@.take(i as int).filter(pred),
                pred == not_name(name@),
            decreases self.names.len() - i,
        {
            let ghost prefix = views_of(kept@);
            if !bytes_eq(&self.names[i], name) {
                let entry = self.names[i].clone();
                kept.push(entry);
                proof {
                    assert(views_of(kept@) =~= prefix.push(self@[i as int]));
                }
            }
            proof {
                lemma_filter_take_step(self@, pred, i as int);
            }
            i = i + 1;
        }
        proof {
            assert(self@.take(self@.len() as int) =~= self@);
            lemma_filter_unique(self@, pred);
            if !self@.contains(name@) {
                assert(forall|k: int| 0 <= k < self@.len() ==> pred(self@[k]));
                lemma_filter_all(self@, pred);
            }
        }
        self.names = kept;
    }

    /// The identities to broadcast to for a message from `sender`: every
    /// tracked connection other than the sender itself, in registry order.
    pub fn others(&self, sender: &Vec<u8>) -> (out: Vec<Vec<u8>>)
        ensures
            views_of(out@) == self@.filter(not_name(sender@)),
    {
        let ghost pred = not_name(sender@);
        let mut out: Vec<Vec<u8>> = Vec::new();
        proof {
            reveal(Seq::filter);
            assert(self@.take(0).filter(pred) =~= views_of(out@));
        }
        let mut i: usize = 0;
        while i < self.names.len()
            invariant
                i <= self.names.len(),
                views_of(out@) == self@.take(i as int).filter(pred),
                pred == not_name(sender@),
            decreases self.names.len() - i,
        {
            let ghost prefix = views_of(out@);
            if !bytes_eq(&self.names[i], sender) {
                let entry = self.names[i].clone();
                out.push(entry);
                proof {
                    assert(views_of(out@) =~= prefix.push(self@[i as int]));
                }
            }
            proof {
                lemma_filter_take_step(self@, pred, i as int);
            }
            i = i + 1;
        }
        proof {
            assert(self@.take(self@.len() as int) =~= self@);
        }
        out
    }
}

} // verus!
