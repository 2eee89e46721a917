use vstd::prelude::*;

verus! {

/// The values of the `Some` entries of `s`, in order.
pub open spec fn somes<T>(s: Seq<Option<T>>) -> Seq<T>
    decreases s.len(),
{
    if s.len() == 0 {
        Seq::empty()
    } else {
        let earlier = somes(s.drop_last());
        match s.last() {
            Some(v) => earlier.push(v),
            None => earlier,
        }
    }
}

/// The results of the operations that succeeded, in order; the failed ones
/// (`None`) are left out.
pub fn successes<T>(outcomes: Vec<Option<T>>) -> (r: Vec<T>)
    ensures
        r@ == somes(outcomes@),
{
    let ghost all = outcomes@;
    let mut rest = outcomes;
    let mut out: Vec<T> = Vec::new();
    assert(all.take(0) =~= Seq::<Option<T>>::empty());
    while rest.len() > 0
        invariant
            rest@.len() <= all.len(),
            rest@ == all.skip(all.len() - rest@.len()),
            out@ == somes(all.take(all.len() - rest@.len())),
        decreases rest@.len(),
    {
        let ghost m = all.len() - rest@.len();
        let ghost before = rest@;
        let x = rest.remove(0);
        proof {
            assert(before[0] == all[m]);
            assert(rest@ =~= all.skip(m + 1));
            assert(all.take(m + 1).drop_last() =~= all.take(m));
            assert(all.take(m + 1).last() == all[m]);
        }
        match x {
            Some(v) => {
                out.push(v);
            },
            None => {},
        }
    }
    assert(all.take(all.len() as int) =~= all);
    out
}

/// The successes are exactly the values of the `Some` entries: a value is
/// kept if and only if some entry holds it, and one value is kept per
/// `Some` entry, none for a `None`.
pub proof fn law_successes_keep_every_some<T>(s: Seq<Option<T>>, x: T)
    ensures
        somes(s).contains(x) <==> s.contains(Some(x)),
        somes(s).len() <= s.len(),
        (forall|i: int| 0 <= i < s.len() ==> s[i] is Some) ==> somes(s).len() == s.len(),
        (forall|i: int| 0 <= i < s.len() ==> s[i] is None) ==> somes(s).len() == 0,
    decreases s.len(),
{
    if s.len() > 0 {
        law_successes_keep_every_some(s.drop_last(), x);
        let d = s.drop_last();
        assert(s =~= d.push(s.last()));
        if s.contains(Some(x)) {
            let i = choose|i: int| 0 <= i < s.len() && s[i] == Some(x);
            if i < s.len() - 1 {
                assert(d[i] == Some(x));
            }
        }
        if d.contains(Some(x)) {
            let i = choose|i: int| 0 <= i < d.len() && d[i] == Some(x);
            assert(s[i] == Some(x));
        }
        match s.last() {
            Some(v) => {
                assert(somes(s) == somes(d).push(v));
                if v == x {
                    assert(somes(s)[somes(d).len() as int] == x);
                }
                if somes(d).contains(x) {
                    let j = choose|j: int| 0 <= j < somes(d).len() && somes(d)[j] == x;
                    assert(somes(s)[j] == x);
                }
                if somes(s).contains(x) {
                    let j = choose|j: int| 0 <= j < somes(s).len() && somes(s)[j] == x;
                    if j < somes(d).len() {
                        assert(somes(d)[j] == x);
                    } else {
                        assert(s[s.len() - 1] == Some(x));
                    }
                }
            },
            None => {
                assert(somes(s) == somes(d));
            },
        }
        if forall|i: int| 0 <= i < s.len() ==> s[i] is Some {
            assert forall|i: int| 0 <= i < d.len() implies d[i] is Some by {
                assert(d[i] == s[i]);
            }
        }
        if forall|i: int| 0 <= i < s.len() ==> s[i] is None {
            assert forall|i: int| 0 <= i < d.len() implies d[i] is None by {
                assert(d[i] == s[i]);
            }
            assert(s[s.len() - 1] is None);
        }
    }
}

} // verus!
