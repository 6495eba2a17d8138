//! The column pairs of a spread (`xminus`): each output column is one input
//! column minus another, named `a\b`. In half mode only the pairs with the
//! first column before the second are taken; otherwise every ordered pair of
//! two different columns, row by row of the first column.

use vstd::prelude::*;
use crate::fmt::{decimal, push_decimal};

verus! {

/// The pairs whose first column is `j`, in order of the second.
pub open spec fn pairs_of(n: nat, half: bool, j: nat) -> Seq<(nat, nat)> {
    if half {
        Seq::new((n - j - 1) as nat, |k: int| (j, (j + 1 + k) as nat))
    } else {
        Seq::new((n - 1) as nat, |k: int| (j, if k < j { k as nat } else { (k + 1) as nat }))
    }
}

/// The pairs whose first column is below `j`, in output order.
pub open spec fn pairs_below(n: nat, half: bool, j: nat) -> Seq<(nat, nat)>
    decreases j,
{
    if j == 0 {
        Seq::empty()
    } else {
        pairs_below(n, half, (j - 1) as nat) + pairs_of(n, half, (j - 1) as nat)
    }
}

/// All pairs of a spread of `n` columns.
pub open spec fn spread_pairs_spec(n: nat, half: bool) -> Seq<(nat, nat)> {
    pairs_below(n, half, n)
}

/// The name of the column `a - b`.
pub open spec fn spread_name(a: Seq<char>, b: Seq<char>) -> Seq<char> {
    a + seq!['\\'] + b
}

/// Why a spread is refused: it needs two columns.
pub open spec fn spread_error(n: nat) -> Seq<char> {
    "xminus requires at least 2 columns (have "@ + decimal(n) + ")"@
}

/// The plan of a spread over columns named `names`: the pairs of input
/// columns, and the name of each output column; refused with fewer than two
/// columns.
pub fn spread_plan(names: &Vec<String>, half: bool) -> (r: Result<(Vec<(usize, usize)>, Vec<String>), String>)
    ensures
        match r {
            Err(e) => names@.len() < 2 && e@ == spread_error(names@.len()),
            Ok((pairs, out)) => {
                &&& names@.len() >= 2
                &&& pairs@.map_values(|p: (usize, usize)| (p.0 as nat, p.1 as nat)) == spread_pairs_spec(
                    names@.len(),
                    half,
                )
                &&& out@.len() == spread_pairs_spec(names@.len(), half).len()
                &&& forall|i: int|
                    0 <= i < out@.len() ==> (#[trigger] out@[i])@ == spread_name(
                        names@[spread_pairs_spec(names@.len(), half)[i].0 as int]@,
                        names@[spread_pairs_spec(names@.len(), half)[i].1 as int]@,
                    )
            },
        },
{
    let n = names.len();
    if n < 2 {
        let mut e = String::new();
        e.append("xminus requires at least 2 columns (have ");
        push_decimal(&mut e, n as u64);
        e.append(")");
        return Err(e);
    }
    let ghost nn = n as nat;
    let mut pairs: Vec<(usize, usize)> = Vec::new();
    let mut out: Vec<String> = Vec::new();
    let mut j: usize = 0;
    while j < n
        invariant
            j <= n,
            nn == n,
            n == names@.len(),
            pairs@.map_values(|p: (usize, usize)| (p.0 as nat, p.1 as nat)) == pairs_below(nn, half, j as nat),
            out@.len() == pairs_below(nn, half, j as nat).len(),
            forall|i: int|
                0 <= i < out@.len() ==> (#[trigger] out@[i])@ == spread_name(
                    names@[pairs_below(nn, half, j as nat)[i].0 as int]@,
                    names@[pairs_below(nn, half, j as nat)[i].1 as int]@,
                ),
            forall|i: int| 0 <= i < pairs_below(nn, half, j as nat).len() ==> (#[trigger] pairs_below(nn, half, j as nat)[i]).0 < n
                && pairs_below(nn, half, j as nat)[i].1 < n,
        decreases n - j,
    {
        let ghost p0 = pairs@;
        let ghost o0 = out@;
        let ghost row = pairs_of(nn, half, j as nat);
        let mut r: usize = if half { j + 1 } else { 0 };
        let ghost mut k: int = 0;
        while r < n
            invariant
                j < n,
                nn == n,
                n == names@.len(),
                    row == pairs_of(nn, half, j as nat),
                r <= n,
                half ==> r >= j + 1 && k == r - j - 1,
                !half ==> k == (if r > j { r - 1 } else { r as int }),
                0 <= k <= row.len(),
                pairs@.map_values(|p: (usize, usize)| (p.0 as nat, p.1 as nat)) == pairs_below(nn, half, j as nat)
                    + row.subrange(0, k),
                out@.len() == pairs_below(nn, half, j as nat).len() + k,
                forall|i: int|
                    0 <= i < out@.len() ==> (#[trigger] out@[i])@ == spread_name(
                        names@[(pairs_below(nn, half, j as nat) + row.subrange(0, k))[i].0 as int]@,
                        names@[(pairs_below(nn, half, j as nat) + row.subrange(0, k))[i].1 as int]@,
                    ),
            decreases n - r,
        {
            if half || r != j {
                let mut name = String::new();
                name.append(names[j].as_str());
                name.append("\\");
                name.append(names[r].as_str());
                let ghost before_p = pairs@;
                let ghost before_o = out@;
                pairs.push((j, r));
                out.push(name);
                proof {
                    assert(row.len() == (if half { n - j - 1 } else { n - 1 }));
                    assert(0 <= k < row.len());
                    if half {
                        assert(row[k] == (j as nat, (j + 1 + k) as nat));
                    } else {
                        assert(row[k] == (j as nat, if k < j { k as nat } else { (k + 1) as nat }));
                    }
                    assert(row[k] == (j as nat, r as nat));
                    let s = pairs_below(nn, half, j as nat) + row.subrange(0, k + 1);
                    assert(s =~= (pairs_below(nn, half, j as nat) + row.subrange(0, k)).push(row[k]));
                    assert(pairs@.map_values(|p: (usize, usize)| (p.0 as nat, p.1 as nat)) =~= before_p.map_values(
                        |p: (usize, usize)| (p.0 as nat, p.1 as nat),
                    ).push((j as nat, r as nat)));
                    reveal_strlit("\\");
                    assert(name@ == spread_name(names@[j as int]@, names@[r as int]@));
                    assert forall|i: int| 0 <= i < out@.len() implies (#[trigger] out@[i])@ == spread_name(
                        names@[s[i].0 as int]@,
                        names@[s[i].1 as int]@,
                    ) by {
                        if i < before_o.len() {
                            assert(out@[i] == before_o[i]);
                            assert(s[i] == (pairs_below(nn, half, j as nat) + row.subrange(0, k))[i]);
                        }
                    }
                }
                proof {
                    k = k + 1;
                }
            }
            r += 1;
        }
        proof {
            assert(row.len() == (if half { n - j - 1 } else { n - 1 }));
            assert(k == row.len());
            assert(row.subrange(0, k) =~= row);
            assert(pairs_below(nn, half, (j + 1) as nat) == pairs_below(nn, half, j as nat) + row);
            assert forall|i: int| 0 <= i < pairs_below(nn, half, (j + 1) as nat).len() implies (#[trigger] pairs_below(nn, half, (j + 1) as nat)[i]).0 < n
                && pairs_below(nn, half, (j + 1) as nat)[i].1 < n by {
                let pb = pairs_below(nn, half, j as nat);
                if i >= pb.len() {
                    assert(pairs_below(nn, half, (j + 1) as nat)[i] == row[i - pb.len()]);
                } else {
                    assert(pairs_below(nn, half, (j + 1) as nat)[i] == pb[i]);
                }
            }
        }
        j += 1;
    }
    Ok((pairs, out))
}

} // verus!
