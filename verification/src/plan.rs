//! Split-plan construction.
//!
//! A split plan for one read is the ordered, deduplicated list of byte
//! offsets at which the outgoing write is segmented: every configured
//! explicit position below the number of bytes read, the SNI-relative
//! offset when that mode is on and a host name was found, and always the
//! number of bytes read itself as the terminal offset. A read that is not a
//! ClientHello gets the single-segment plan.

use vstd::prelude::*;

use crate::hello::{client_hello_ok, parse_client_hello, sni_host_loc, lemma_sni_loc_bounds};

verus! {

/// A sequence of offsets is strictly ascending.
pub open spec fn strictly_ascending(s: Seq<usize>) -> bool {
    forall|i: int, j: int| 0 <= i < j < s.len() ==> s[i] < s[j]
}

/// The offset a SNI-relative split uses for a host name at offset `k` of
/// length `l`: after the host name's first byte when it has two or more
/// bytes, else right before it.
pub open spec fn sni_split_at(k: int, l: int) -> int {
    if l >= 2 {
        k + 1
    } else {
        k
    }
}

/// Whether offset `x` belongs in the split plan for a read of `n` bytes `b`,
/// explicit positions `pos`, and the SNI-split flag: the terminal offset `n`
/// always; when the read parses as a ClientHello, also every explicit
/// position strictly below `n`, and the SNI-relative offset when asked for
/// and a host name was found.
pub open spec fn plan_member(
    b: Seq<u8>,
    n: int,
    pos: Seq<usize>,
    split_host: bool,
    x: usize,
) -> bool {
    ||| x == n
    ||| (client_hello_ok(b) && pos.contains(x) && x < n)
    ||| (client_hello_ok(b) && split_host && (sni_host_loc(b) matches Some(kl) && x
        == sni_split_at(kl.0, kl.1)))
}

/// Insert `x` into a strictly ascending vector of offsets, keeping it
/// strictly ascending; an `x` already present is dropped.
fn insert_sorted(v: &mut Vec<usize>, x: usize)
    requires
        strictly_ascending(old(v)@),
    ensures
        strictly_ascending(final(v)@),
        forall|y: usize| final(v)@.contains(y) <==> (old(v)@.contains(y) || y == x),
{
    let mut i: usize = 0;
    while i < v.len() && v[i] < x
        invariant
            i <= v.len(),
            forall|j: int| 0 <= j < i ==> v@[j] < x,
            strictly_ascending(v@),
            v@ == old(v)@,
        decreases v.len() - i,
    {
        i = i + 1;
    }
    if i == v.len() {
        v.push(x);
        proof {
            assert forall|y: usize| v@.contains(y) <==> (old(v)@.contains(y) || y == x) by {
                if v@.contains(y) {
                    let j = choose|j: int| 0 <= j < v@.len() && v@[j] == y;
                    if j < old(v)@.len() {
                        assert(old(v)@[j] == y);
                    }
                }
                if old(v)@.contains(y) {
                    let j = choose|j: int| 0 <= j < old(v)@.len() && old(v)@[j] == y;
                    assert(v@[j] == y);
                }
                if y == x {
                    assert(v@[v@.len() - 1] == y);
                }
            }
        }
    } else if v[i] == x {
        proof {
            assert(v@[i as int] == x);
            assert(v@.contains(x));
        }
    } else {
        proof {
            old(v)@.insert_ensures(i as int, x);
        }
        v.insert(i, x);
        proof {
            let w = old(v)@;
            assert(v@ == w.insert(i as int, x));
            assert forall|p: int, q: int| 0 <= p < q < v@.len() implies v@[p] < v@[q] by {
                if q < i {
                    assert(v@[p] == w[p] && v@[q] == w[q]);
                } else if q == i {
                    assert(v@[p] == w[p] && v@[q] == x);
                } else if p < i {
                    assert(v@[p] == w[p] && v@[q] == w[q - 1]);
                    assert(x < w[i as int]);
                    assert(w[i as int] <= w[q - 1]);
                } else if p == i {
                    assert(v@[p] == x && v@[q] == w[q - 1]);
                    assert(x < w[i as int]);
                } else {
                    assert(v@[p] == w[p - 1] && v@[q] == w[q - 1]);
                }
            }
            assert forall|y: usize| v@.contains(y) <==> (w.contains(y) || y == x) by {
                if v@.contains(y) {
                    let j = choose|j: int| 0 <= j < v@.len() && v@[j] == y;
                    if j < i {
                        assert(w[j] == y);
                    } else if j == i {
                    } else {
                        assert(w[j - 1] == y);
                    }
                }
                if w.contains(y) {
                    let j = choose|j: int| 0 <= j < w.len() && w[j] == y;
                    if j < i {
                        assert(v@[j] == y);
                    } else {
                        assert(v@[j + 1] == y);
                    }
                }
                if y == x {
                    assert(v@[i as int] == y);
                }
            }
        }
    }
}

/// Build the split plan for one read: the first `n` bytes of `buf` are what
/// the read produced (later bytes are stale and ignored). The plan is
/// strictly ascending, ends with `n`, and holds exactly the offsets that
/// belong to it: explicit positions below `n` and the SNI-relative offset
/// when the read is a ClientHello, and `n` always. A read that does not
/// parse as a ClientHello yields the single-segment plan `[n]`.
pub fn build_split_plan(buf: &Vec<u8>, n: usize, positions: &Vec<usize>, split_host: bool) -> (plan:
    Vec<usize>)
    requires
        n <= buf.len(),
    ensures
        plan@.len() >= 1,
        plan@[plan@.len() - 1] == n,
        strictly_ascending(plan@),
        forall|x: usize|
            plan@.contains(x) <==> plan_member(
                buf@.take(n as int),
                n as int,
                positions@,
                split_host,
                x,
            ),
        forall|i: int| 0 <= i < plan@.len() - 1 ==> plan@[i] < n,
        !client_hello_ok(buf@.take(n as int)) ==> plan@ == seq![n],
        client_hello_ok(buf@.take(n as int)) && split_host && (sni_host_loc(buf@.take(n as int))
            matches Some(kl)) ==> (exists|i: int|
            0 <= i < plan@.len() && plan@[i] == sni_split_at(
                sni_host_loc(buf@.take(n as int))->Some_0.0,
                sni_host_loc(buf@.take(n as int))->Some_0.1,
            )),
{
    let ghost b = buf@.take(n as int);
    let info = parse_client_hello(buf, n);
    let mut plan: Vec<usize> = Vec::new();
    if info.is_client_hello {
        let mut idx: usize = 0;
        while idx < positions.len()
            invariant
                idx <= positions.len(),
                strictly_ascending(plan@),
                client_hello_ok(b),
                n <= buf.len(),
                b == buf@.take(n as int),
                forall|y: usize|
                    plan@.contains(y) <==> (exists|j: int|
                        0 <= j < idx && positions@[j] == y && y < n),
            decreases positions.len() - idx,
        {
            let p = positions[idx];
            if p < n {
                insert_sorted(&mut plan, p);
                proof {
                    assert forall|y: usize|
                        plan@.contains(y) <==> (exists|j: int|
                            0 <= j < idx + 1 && positions@[j] == y && y < n) by {
                        if plan@.contains(y) {
                            if y == p {
                                assert(positions@[idx as int] == y && y < n);
                            }
                        }
                        if exists|j: int| 0 <= j < idx + 1 && positions@[j] == y && y < n {
                            let j = choose|j: int|
                                0 <= j < idx + 1 && positions@[j] == y && y < n;
                            if j < idx {
                                assert(exists|j2: int|
                                    0 <= j2 < idx && positions@[j2] == y && y < n);
                            }
                        }
                    }
                }
            } else {
                proof {
                    assert forall|y: usize|
                        plan@.contains(y) <==> (exists|j: int|
                            0 <= j < idx + 1 && positions@[j] == y && y < n) by {
                        if exists|j: int| 0 <= j < idx + 1 && positions@[j] == y && y < n {
                            let j = choose|j: int|
                                0 <= j < idx + 1 && positions@[j] == y && y < n;
                            assert(j < idx);
                            assert(exists|j2: int| 0 <= j2 < idx && positions@[j2] == y && y < n);
                        }
                    }
                }
            }
            idx = idx + 1;
        }
        proof {
            assert forall|y: usize|
                plan@.contains(y) <==> (positions@.contains(y) && y < n) by {
            }
        }
        if split_host {
            if let Some((k, l)) = info.sni {
                proof {
                    lemma_sni_loc_bounds(b);
                }
                let at = if l >= 2 {
                    k + 1
                } else {
                    k
                };
                insert_sorted(&mut plan, at);
            }
        }
    }
    insert_sorted(&mut plan, n);
    proof {
        assert(plan@.contains(n));
        assert forall|x: usize|
            plan@.contains(x) <==> plan_member(b, n as int, positions@, split_host, x) by {
            lemma_sni_loc_bounds_if(b);
        }
        assert forall|i: int| 0 <= i < plan@.len() implies plan@[i] <= n by {
            assert(plan@.contains(plan@[i]));
            if client_hello_ok(b) && split_host {
                lemma_sni_loc_bounds_if(b);
            }
        }
        let j = choose|j: int| 0 <= j < plan@.len() && plan@[j] == n;
        if j < plan@.len() - 1 {
            assert(plan@[j] < plan@[plan@.len() - 1]);
            assert(false);
        }
        if client_hello_ok(b) && split_host {
            match sni_host_loc(b) {
                Some(kl) => {
                    lemma_sni_loc_bounds(b);
                    let x = sni_split_at(kl.0, kl.1) as usize;
                    assert(x as int == sni_split_at(kl.0, kl.1));
                    assert(plan_member(b, n as int, positions@, split_host, x));
                    assert(plan@.contains(x));
                },
                None => {},
            }
        }
        if !client_hello_ok(b) {
            assert forall|i: int| 0 <= i < plan@.len() implies plan@[i] == n by {
                assert(plan@.contains(plan@[i]));
            }
            if plan@.len() >= 2 {
                assert(plan@[0] < plan@[1]);
                assert(false);
            }
            assert(plan@ =~= seq![n]);
        }
    }
    plan
}

proof fn lemma_sni_loc_bounds_if(b: Seq<u8>)
    ensures
        client_hello_ok(b) ==> (sni_host_loc(b) matches Some(kl) ==> 0 <= kl.0 && 0 <= kl.1
            && kl.0 + kl.1 <= b.len()),
{
    if client_hello_ok(b) {
        lemma_sni_loc_bounds(b);
    }
}

} // verus!
