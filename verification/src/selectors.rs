//! The selector registry: method name strings mapped to stable selector
//! identifiers. A selector's identifier is its position in the registration
//! order, so the registry is append-only and identifiers never move.

use vstd::prelude::*;
use crate::mem::bytes_eq;
use crate::methods::Sel;

verus! {

/// `s2` is `s1` with zero or more elements appended.
pub open spec fn seq_extends<A>(s1: Seq<A>, s2: Seq<A>) -> bool {
    s1.len() <= s2.len() && s2.subrange(0, s1.len() as int) == s1
}

/// Index of the first occurrence of `n` in `s`, or -1 when absent.
pub open spec fn sel_index(s: Seq<Seq<u8>>, n: Seq<u8>) -> int
    decreases s.len(),
{
    if s.len() == 0 {
        -1
    } else if s[0] == n {
        0
    } else {
        let r = sel_index(s.drop_first(), n);
        if r < 0 {
            -1
        } else {
            r + 1
        }
    }
}

/// Whether `n` is a registered selector name in `s`.
pub open spec fn has_sel(s: Seq<Seq<u8>>, n: Seq<u8>) -> bool {
    sel_index(s, n) >= 0
}

/// Registering one name: a no-op when it is present, an append when not.
pub open spec fn reg_sel(s: Seq<Seq<u8>>, n: Seq<u8>) -> Seq<Seq<u8>> {
    if has_sel(s, n) {
        s
    } else {
        s.push(n)
    }
}

/// Registering a list of names, first to last.
pub open spec fn reg_sels(s: Seq<Seq<u8>>, names: Seq<Seq<u8>>) -> Seq<Seq<u8>>
    decreases names.len(),
{
    if names.len() == 0 {
        s
    } else {
        reg_sels(reg_sel(s, names[0]), names.drop_first())
    }
}

pub proof fn lemma_sel_index_props(s: Seq<Seq<u8>>, n: Seq<u8>)
    ensures
        has_sel(s, n) ==> 0 <= sel_index(s, n) < s.len() && s[sel_index(s, n)] == n,
        !has_sel(s, n) ==> forall|i: int| 0 <= i < s.len() ==> s[i] != n,
        forall|i: int| 0 <= i < sel_index(s, n) ==> s[i] != n,
    decreases s.len(),
{
    if s.len() > 0 && s[0] != n {
        lemma_sel_index_props(s.drop_first(), n);
        if !has_sel(s, n) {
            assert forall|i: int| 0 <= i < s.len() implies s[i] != n by {
                if i > 0 {
                    assert(s.drop_first()[i - 1] == s[i]);
                }
            }
        } else {
            assert(s.drop_first()[sel_index(s.drop_first(), n)] == s[sel_index(s, n)]);
            assert forall|i: int| 0 <= i < sel_index(s, n) implies s[i] != n by {
                if i > 0 {
                    assert(s.drop_first()[i - 1] == s[i]);
                }
            }
        }
    }
}

/// If the first occurrence of `n` is at `i`, `sel_index` says so.
pub proof fn lemma_sel_index_first(s: Seq<Seq<u8>>, n: Seq<u8>, i: int)
    requires
        0 <= i < s.len(),
        s[i] == n,
        forall|k: int| 0 <= k < i ==> s[k] != n,
    ensures
        sel_index(s, n) == i,
    decreases s.len(),
{
    if i > 0 {
        assert(s[0] != n);
        assert(s.drop_first()[i - 1] == s[i]);
        assert forall|k: int| 0 <= k < i - 1 implies s.drop_first()[k] != n by {
            assert(s.drop_first()[k] == s[k + 1]);
        }
        lemma_sel_index_first(s.drop_first(), n, i - 1);
    }
}

/// A registered name keeps its identifier when the registry grows.
pub proof fn lemma_sel_index_extends(s1: Seq<Seq<u8>>, s2: Seq<Seq<u8>>, n: Seq<u8>)
    requires
        seq_extends(s1, s2),
        has_sel(s1, n),
    ensures
        has_sel(s2, n),
        sel_index(s2, n) == sel_index(s1, n),
{
    lemma_sel_index_props(s1, n);
    let i = sel_index(s1, n);
    assert(s2[i] == s2.subrange(0, s1.len() as int)[i]);
    assert forall|k: int| 0 <= k < i implies s2[k] != n by {
        assert(s2[k] == s2.subrange(0, s1.len() as int)[k]);
    }
    lemma_sel_index_first(s2, n, i);
}

pub proof fn lemma_seq_extends_refl<A>(s: Seq<A>)
    ensures
        seq_extends(s, s),
{
    assert(s.subrange(0, s.len() as int) =~= s);
}

pub proof fn lemma_seq_extends_trans<A>(s1: Seq<A>, s2: Seq<A>, s3: Seq<A>)
    requires
        seq_extends(s1, s2),
        seq_extends(s2, s3),
    ensures
        seq_extends(s1, s3),
{
    assert forall|i: int| 0 <= i < s1.len() implies s3.subrange(0, s1.len() as int)[i] == s1[i] by {
        assert(s2[i] == s2.subrange(0, s1.len() as int)[i]);
        assert(s3.subrange(0, s2.len() as int)[i] == s2[i]);
    }
    assert(s3.subrange(0, s1.len() as int) =~= s1);
}

pub proof fn lemma_reg_sel_extends(s: Seq<Seq<u8>>, n: Seq<u8>)
    ensures
        seq_extends(s, reg_sel(s, n)),
        has_sel(reg_sel(s, n), n),
{
    if !has_sel(s, n) {
        assert(s.push(n).subrange(0, s.len() as int) =~= s);
        lemma_sel_index_props(s, n);
        lemma_sel_index_first(s.push(n), n, s.len() as int);
    } else {
        assert(s.subrange(0, s.len() as int) =~= s);
    }
}

pub proof fn lemma_reg_sels_extends(s: Seq<Seq<u8>>, names: Seq<Seq<u8>>)
    ensures
        seq_extends(s, reg_sels(s, names)),
        forall|i: int| 0 <= i < names.len() ==> has_sel(reg_sels(s, names), #[trigger] names[i]),
    decreases names.len(),
{
    if names.len() == 0 {
        assert(s.subrange(0, s.len() as int) =~= s);
    } else {
        let s1 = reg_sel(s, names[0]);
        lemma_reg_sel_extends(s, names[0]);
        lemma_reg_sels_extends(s1, names.drop_first());
        lemma_seq_extends_trans(s, s1, reg_sels(s, names));
        lemma_sel_index_extends(s1, reg_sels(s, names), names[0]);
        assert forall|i: int| 0 <= i < names.len() implies has_sel(
            reg_sels(s, names),
            #[trigger] names[i],
        ) by {
            if i > 0 {
                assert(names.drop_first()[i - 1] == names[i]);
            }
        }
    }
}

/// Registering names one at a time, last name last, is the same fold.
pub proof fn lemma_reg_sels_snoc(s: Seq<Seq<u8>>, ns: Seq<Seq<u8>>, n: Seq<u8>)
    ensures
        reg_sels(s, ns.push(n)) == reg_sel(reg_sels(s, ns), n),
    decreases ns.len(),
{
    if ns.len() == 0 {
        assert(ns.push(n)[0] == n);
        assert(ns.push(n).drop_first() =~= Seq::<Seq<u8>>::empty());
        assert(reg_sels(s, ns.push(n)) == reg_sels(reg_sel(s, n), Seq::<Seq<u8>>::empty()));
        assert(reg_sels(reg_sel(s, n), Seq::<Seq<u8>>::empty()) == reg_sel(s, n));
        assert(reg_sels(s, ns) == s);
    } else {
        assert(ns.push(n)[0] == ns[0]);
        assert(ns.push(n).drop_first() =~= ns.drop_first().push(n));
        lemma_reg_sels_snoc(reg_sel(s, ns[0]), ns.drop_first(), n);
        assert(reg_sels(s, ns.push(n)) == reg_sels(reg_sel(s, ns[0]), ns.drop_first().push(n)));
        assert(reg_sels(s, ns) == reg_sels(reg_sel(s, ns[0]), ns.drop_first()));
    }
}

/// The selector registry.
pub struct Selectors {
    names: Vec<Vec<u8>>,
}

impl View for Selectors {
    type V = Seq<Seq<u8>>;

    closed spec fn view(&self) -> Seq<Seq<u8>> {
        self.names@.map_values(|v: Vec<u8>| v@)
    }
}

impl Selectors {
    pub fn new() -> (r: Selectors)
        ensures
            r@ == Seq::<Seq<u8>>::empty(),
    {
        let r = Selectors { names: Vec::new() };
        proof {
            assert(r@ =~= Seq::<Seq<u8>>::empty());
        }
        r
    }

    /// The identifier of an already-registered name.
    pub fn lookup(&self, name: &[u8]) -> (r: Option<Sel>)
        ensures
            match r {
                Some(i) => has_sel(self@, name@) && i == sel_index(self@, name@),
                None => !has_sel(self@, name@),
            },
    {
        let n = self.names.len();
        let mut i: usize = 0;
        while i < n
            invariant
                0 <= i <= n,
                n == self.names@.len(),
                self@.len() == self.names@.len(),
                forall|k: int| 0 <= k < i ==> self@[k] != name@,
                forall|k: int| 0 <= k < n ==> self@[k] == (#[trigger] self.names@[k])@,
            decreases n - i,
        {
            if bytes_eq(self.names[i].as_slice(), name) {
                proof {
                    lemma_sel_index_first(self@, name@, i as int);
                }
                return Some(i);
            }
            i = i + 1;
        }
        proof {
            lemma_sel_index_props(self@, name@);
            if has_sel(self@, name@) {
                assert(self@[sel_index(self@, name@)] == name@);
            }
        }
        None
    }

    /// The identifier for a name, registering it on demand.
    pub fn register(&mut self, name: &[u8]) -> (r: Sel)
        ensures
            final(self)@ == reg_sel(old(self)@, name@),
            has_sel(final(self)@, name@),
            r == sel_index(final(self)@, name@),
    {
        match self.lookup(name) {
            Some(i) => i,
            None => {
                let i = self.names.len();
                let owned = crate::mem::copy_bytes(name);
                self.names.push(owned);
                proof {
                    assert(self@ =~= old(self)@.push(name@));
                    lemma_sel_index_props(old(self)@, name@);
                    lemma_sel_index_first(self@, name@, i as int);
                }
                i
            },
        }
    }
}

} // verus!
