//! The branches of a tree that is shown as indented rows.
use vstd::prelude::*;

verus! {

broadcast use vstd::string::group_string_axioms;

/// Whether another row at the depth of row `i` follows before a shallower one.
pub open spec fn has_next(depths: Seq<usize>, i: int) -> bool {
    exists|j: int|
        i < j < depths.len() && #[trigger] depths[j] == depths[i] && forall|k: int|
            i < k < j ==> #[trigger] depths[k] > depths[i]
}

/// The first `n` of the rows, or all of them where there are fewer.
pub open spec fn at_most(open: Seq<bool>, n: nat) -> Seq<bool> {
    if open.len() <= n {
        open
    } else {
        open.take(n as int)
    }
}

/// The rows that are open when row `i` is reached, outermost first; of each,
/// whether it is the last of its siblings.
pub open spec fn open_rows(depths: Seq<usize>, i: nat) -> Seq<bool>
    decreases i, 0nat,
{
    if i == 0 {
        Seq::empty()
    } else {
        above(depths, (i - 1) as nat).push(!has_next(depths, i - 1))
    }
}

/// The open rows that row `i` stands under.
pub open spec fn above(depths: Seq<usize>, i: nat) -> Seq<bool>
    decreases i, 1nat,
{
    at_most(open_rows(depths, i), depths[i as int] as nat)
}

/// What is drawn below a row, beside what is under it.
pub open spec fn bar(last: bool) -> Seq<char> {
    if last {
        "   "@
    } else {
        "│  "@
    }
}

pub open spec fn bars(open: Seq<bool>) -> Seq<char>
    decreases open.len(),
{
    if open.len() == 0 {
        Seq::empty()
    } else {
        bars(open.drop_last()) + bar(open.last())
    }
}

/// The branch of a row at a depth.
pub open spec fn branch(depth: usize, last: bool) -> Seq<char> {
    if depth == 0 {
        Seq::empty()
    } else if last {
        "└─ "@
    } else {
        "├─ "@
    }
}

/// What stands before a row: the bars of the rows that it stands under, and,
/// below the outermost level, its own branch.
#[verifier::opaque]
pub open spec fn prefix_of(depths: Seq<usize>, i: nat) -> Seq<char> {
    bars(above(depths, i)) + branch(depths[i as int], !has_next(depths, i as int))
}

/// What stands before the output of a row.
#[verifier::opaque]
pub open spec fn output_prefix_of(depths: Seq<usize>, i: nat) -> Seq<char> {
    bars(above(depths, i)) + bar(!has_next(depths, i as int)) + "  "@
}

/// Whether the first row is outermost and each further one at most one level
/// below the row before it.
pub open spec fn is_tree(depths: Seq<usize>) -> bool {
    forall|i: int|
        0 <= i < depths.len() ==> #[trigger] depths[i] <= if i == 0 {
            0
        } else {
            depths[i - 1] + 1
        }
}

proof fn lemma_widths()
    ensures
        "   "@.len() == 3,
        "│  "@.len() == 3,
        "├─ "@.len() == 3,
        "└─ "@.len() == 3,
        "  "@.len() == 2,
{
    reveal_strlit("   ");
    reveal_strlit("│  ");
    reveal_strlit("├─ ");
    reveal_strlit("└─ ");
    reveal_strlit("  ");
}

proof fn lemma_bars_width(open: Seq<bool>)
    ensures
        bars(open).len() == 3 * open.len(),
    decreases open.len(),
{
    lemma_widths();
    if open.len() > 0 {
        lemma_bars_width(open.drop_last());
    }
}

proof fn lemma_open_enough(depths: Seq<usize>, i: nat)
    requires
        is_tree(depths),
        i < depths.len(),
    ensures
        open_rows(depths, i).len() >= depths[i as int],
        above(depths, i).len() == depths[i as int],
    decreases i,
{
    assert(depths[i as int] <= if i == 0 {
        0
    } else {
        depths[i - 1] + 1
    });
    if i > 0 {
        lemma_open_enough(depths, (i - 1) as nat);
    }
}

/// Each level that a row stands under takes three columns, and so does its
/// branch: siblings stand under one another. The output of a row stands five
/// columns inside of the levels above it.
#[verifier::rlimit(60)]
#[verifier::spinoff_prover]
pub proof fn law_columns(depths: Seq<usize>, i: nat)
    requires
        is_tree(depths),
        i < depths.len(),
    ensures
        prefix_of(depths, i).len() == 3 * depths[i as int] + (if depths[i as int] == 0 {
            0int
        } else {
            3
        }),
        output_prefix_of(depths, i).len() == 3 * depths[i as int] + 5,
{
    reveal(prefix_of);
    reveal(output_prefix_of);
    lemma_widths();
    lemma_open_enough(depths, i);
    lemma_bars_width(above(depths, i));
}

/// Whether row `i` stands under row `a`.
pub open spec fn stands_under(depths: Seq<usize>, a: int, i: int) -> bool {
    0 <= a < i < depths.len() && forall|j: int|
        a < j <= i ==> #[trigger] depths[j] > depths[a]
}

#[verifier::rlimit(60)]
#[verifier::spinoff_prover]
proof fn lemma_above_at(depths: Seq<usize>, a: int, i: nat)
    requires
        is_tree(depths),
        stands_under(depths, a, i as int),
    ensures
        above(depths, i).len() == depths[i as int],
        above(depths, i)[depths[a] as int] == !has_next(depths, a),
    decreases i,
{
    lemma_open_enough(depths, i);
    lemma_open_enough(depths, (i - 1) as nat);
    assert(depths[i as int] > depths[a]);
    let k = depths[a] as int;
    let open = open_rows(depths, i);
    let before = above(depths, (i - 1) as nat);
    assert(open == before.push(!has_next(depths, i - 1)));
    if a == i - 1 {
        assert(open[k] == !has_next(depths, a));
    } else {
        assert(stands_under(depths, a, i - 1)) by {
            assert forall|j: int| a < j <= i - 1 implies #[trigger] depths[j] > depths[a] by {}
        }
        lemma_above_at(depths, a, (i - 1) as nat);
        assert(open[k] == before[k]);
    }
    assert(above(depths, i)[k] == open[k]);
}

proof fn lemma_cut_second(a: Seq<char>, b: Seq<char>)
    ensures
        (a + b).subrange(a.len() as int, (a + b).len() as int) == b,
{
    assert((a + b).subrange(a.len() as int, (a + b).len() as int) =~= b);
}

proof fn lemma_cut_first(a: Seq<char>, b: Seq<char>, i: int, j: int)
    requires
        0 <= i <= j <= a.len(),
    ensures
        (a + b).subrange(i, j) == a.subrange(i, j),
{
    assert((a + b).subrange(i, j) =~= a.subrange(i, j));
}

#[verifier::rlimit(60)]
#[verifier::spinoff_prover]
proof fn lemma_bars_at(open: Seq<bool>, k: int)
    requires
        0 <= k < open.len(),
    ensures
        bars(open).subrange(3 * k, 3 * k + 3) == bar(open[k]),
        bars(open).len() == 3 * open.len(),
    decreases open.len(),
{
    let init = open.drop_last();
    let a = bars(init);
    let b = bar(open.last());
    assert(bars(open) == a + b);
    assert(b.len() == 3) by {
        lemma_widths();
    }
    if k == open.len() - 1 {
        lemma_bars_width(init);
        lemma_cut_second(a, b);
    } else {
        lemma_bars_at(init, k);
        lemma_cut_first(a, b, 3 * k, 3 * k + 3);
    }
}

/// A row that stands under another shows in the column of that other whether
/// one more row follows it at its level: a bar where one does, and blanks where
/// it was the last.
#[verifier::rlimit(60)]
#[verifier::spinoff_prover]
pub proof fn law_bars_lead_to_the_next_row(depths: Seq<usize>, a: int, i: nat)
    requires
        is_tree(depths),
        stands_under(depths, a, i as int),
    ensures
        ({
            let k = 3 * depths[a];
            let follows = exists|j: int|
                a < j < depths.len() && #[trigger] depths[j] == depths[a] && forall|x: int|
                    a < x < j ==> #[trigger] depths[x] > depths[a];
            let shown = if follows {
                "│  "@
            } else {
                "   "@
            };
            &&& prefix_of(depths, i).subrange(k, k + 3) == shown
            &&& output_prefix_of(depths, i).subrange(k, k + 3) == shown
        }),
{
    lemma_above_at(depths, a, i);
    assert(depths[i as int] > depths[a]);
    let open = above(depths, i);
    let k = depths[a] as int;
    lemma_bars_at(open, k);
    reveal(prefix_of);
    reveal(output_prefix_of);
    let last = !has_next(depths, i as int);
    lemma_cut_first(bars(open), branch(depths[i as int], last), 3 * k, 3 * k + 3);
    lemma_cut_first(bars(open), bar(last), 3 * k, 3 * k + 3);
    lemma_cut_first(bars(open) + bar(last), "  "@, 3 * k, 3 * k + 3);
}

/// The branch of a row itself says whether one more row follows at its level;
/// an outermost row has none. Below it, its output stands behind a bar where one
/// more follows, and two columns in.
#[verifier::rlimit(60)]
#[verifier::spinoff_prover]
pub proof fn law_branches_lead_to_the_row(depths: Seq<usize>, i: nat)
    requires
        is_tree(depths),
        i < depths.len(),
    ensures
        ({
            let k = 3 * depths[i as int];
            let follows = exists|j: int|
                i < j < depths.len() && #[trigger] depths[j] == depths[i as int] && forall|x: int|
                    i < x < j ==> #[trigger] depths[x] > depths[i as int];
            &&& prefix_of(depths, i).skip(k) == if depths[i as int] == 0 {
                Seq::empty()
            } else if follows {
                "├─ "@
            } else {
                "└─ "@
            }
            &&& output_prefix_of(depths, i).skip(k) == if follows {
                "│  "@ + "  "@
            } else {
                "   "@ + "  "@
            }
        }),
{
    lemma_own_branch(depths, i);
}

#[verifier::rlimit(60)]
#[verifier::spinoff_prover]
proof fn lemma_own_branch(depths: Seq<usize>, i: nat)
    requires
        is_tree(depths),
        i < depths.len(),
    ensures
        ({
            let k = 3 * depths[i as int];
            let last = !has_next(depths, i as int);
            &&& prefix_of(depths, i).skip(k) == branch(depths[i as int], last)
            &&& output_prefix_of(depths, i).skip(k) == bar(last) + "  "@
        }),
{
    lemma_open_enough(depths, i);
    let open = above(depths, i);
    lemma_bars_width(open);
    let last = !has_next(depths, i as int);
    assert(prefix_of(depths, i) == bars(open) + branch(depths[i as int], last)) by {
        reveal(prefix_of);
    }
    assert(output_prefix_of(depths, i) == bars(open) + bar(last) + "  "@) by {
        reveal(output_prefix_of);
    }
    lemma_skip_first(bars(open), branch(depths[i as int], last));
    lemma_skip_first_of_three(bars(open), bar(last), "  "@);
}

proof fn lemma_skip_first_of_three(a: Seq<char>, b: Seq<char>, c: Seq<char>)
    ensures
        (a + b + c).skip(a.len() as int) == b + c,
{
    assert(a + b + c =~= a + (b + c));
    lemma_skip_first(a, b + c);
}

proof fn lemma_skip_first(a: Seq<char>, b: Seq<char>)
    ensures
        (a + b).skip(a.len() as int) == b,
{
    assert((a + b).skip(a.len() as int) =~= b);
}

/// The greater of two numbers.
pub open spec fn greater(a: nat, b: nat) -> nat {
    if a < b {
        b
    } else {
        a
    }
}

/// Depths as they are stored.
pub open spec fn stored(depths: Seq<nat>) -> Seq<usize> {
    Seq::new(depths.len(), |i: int| depths[i] as usize)
}

/// Whether depths can be stored.
pub open spec fn storable(depths: Seq<nat>) -> bool {
    forall|i: int| 0 <= i < depths.len() ==> #[trigger] depths[i] <= usize::MAX
}

/// One level below a depth; there is none below the last that can be stored.
pub open spec fn deeper(depth: nat) -> nat {
    if depth < usize::MAX {
        depth + 1
    } else {
        depth
    }
}

/// Whether rows start at a depth, never rise above it, never skip a level and
/// stay within `height` levels.
pub open spec fn descends(depths: Seq<nat>, depth: nat, height: nat) -> bool {
    &&& depths.len() > 0 ==> depths[0] == depth
    &&& forall|i: int| 0 <= i < depths.len() ==> depth <= #[trigger] depths[i] < depth + height
    &&& forall|i: int| 0 < i < depths.len() ==> #[trigger] depths[i] <= depths[i - 1] + 1
}

pub proof fn lemma_descends_join(a: Seq<nat>, b: Seq<nat>, depth: nat, ha: nat, hb: nat)
    requires
        descends(a, depth, ha),
        descends(b, depth, hb),
    ensures
        descends(a + b, depth, greater(ha, hb)),
        storable(a) && storable(b) ==> storable(a + b),
{
    let all = a + b;
    if storable(a) && storable(b) {
        assert forall|i: int| 0 <= i < all.len() implies #[trigger] all[i] <= usize::MAX by {
            if i < a.len() {
                assert(all[i] == a[i]);
            } else {
                assert(all[i] == b[i - a.len()]);
            }
        }
    }
    assert forall|i: int| 0 <= i < all.len() implies depth <= #[trigger] all[i] < depth + greater(
        ha,
        hb,
    ) by {
        if i < a.len() {
            assert(all[i] == a[i]);
        } else {
            assert(all[i] == b[i - a.len()]);
        }
    }
    assert forall|i: int| 0 < i < all.len() implies #[trigger] all[i] <= all[i - 1] + 1 by {
        if i < a.len() {
            assert(all[i] == a[i]);
            assert(all[i - 1] == a[i - 1]);
        } else {
            assert(all[i] == b[i - a.len()]);
            if i > a.len() {
                assert(all[i - 1] == b[i - a.len() - 1]);
            } else {
                assert(all[i - 1] == a[i - 1]);
            }
        }
    }
}

pub proof fn lemma_descends_under(depth: nat, below: nat, under: Seq<nat>, height: nat)
    requires
        depth <= below <= depth + 1,
        descends(under, below, height),
    ensures
        descends(seq![depth] + under, depth, height + 1),
        depth <= usize::MAX && storable(under) ==> storable(seq![depth] + under),
{
    let all = seq![depth] + under;
    if depth <= usize::MAX && storable(under) {
        assert forall|i: int| 0 <= i < all.len() implies #[trigger] all[i] <= usize::MAX by {
            if i > 0 {
                assert(all[i] == under[i - 1]);
            }
        }
    }
    assert forall|i: int| 0 <= i < all.len() implies depth <= #[trigger] all[i] < depth + height
        + 1 by {
        if i > 0 {
            assert(all[i] == under[i - 1]);
        }
    }
    assert forall|i: int| 0 < i < all.len() implies #[trigger] all[i] <= all[i - 1] + 1 by {
        assert(all[i] == under[i - 1]);
        if i > 1 {
            assert(all[i - 1] == under[i - 2]);
        }
    }
}

pub proof fn lemma_descends_is_tree(depths: Seq<nat>, height: nat)
    requires
        descends(depths, 0, height),
        storable(depths),
    ensures
        is_tree(stored(depths)),
{
    let s = stored(depths);
    assert forall|i: int| 0 <= i < s.len() implies #[trigger] s[i] <= if i == 0 {
        0
    } else {
        s[i - 1] + 1
    } by {
        assert(depths[i] <= usize::MAX);
        if i > 0 {
            assert(depths[i - 1] <= usize::MAX);
        }
    }
}

/// What stands before a row and before its output.
#[derive(Debug, PartialEq)]
pub struct Branch {
    pub prefix: String,
    pub output_prefix: String,
}

/// Whether a row is the last of its siblings.
fn is_last(depths: &Vec<usize>, i: usize) -> (r: bool)
    requires
        i < depths@.len(),
    ensures
        r == !has_next(depths@, i as int),
{
    let total: usize = depths.len();
    let depth: usize = depths[i];
    let mut next: usize = i + 1;
    while next < depths.len() && depths[next] > depth
        invariant
            i < next <= depths@.len(),
            depth == depths@[i as int],
            forall|k: int| i < k < next ==> #[trigger] depths@[k] > depth,
        decreases depths@.len() - next,
    {
        next += 1;
    }
    if next < depths.len() && depths[next] == depth {
        assert(depths@[next as int] == depths@[i as int]);
        return false;
    }
    proof {
        if has_next(depths@, i as int) {
            let j = choose|j: int|
                i < j < depths@.len() && #[trigger] depths@[j] == depths@[i as int] && forall|k: int|
                    i < k < j ==> #[trigger] depths@[k] > depths@[i as int];
            assert(j >= next);
            assert(j > next);
            assert(depths@[next as int] > depths@[i as int]);
        }
    }
    true
}

/// The branches of rows at the given depths.
pub fn branches(depths: &Vec<usize>) -> (r: Vec<Branch>)
    ensures
        r@.len() == depths@.len(),
        forall|i: int|
            0 <= i < r@.len() ==> (#[trigger] r@[i]).prefix@ == prefix_of(depths@, i as nat)
                && r@[i].output_prefix@ == output_prefix_of(depths@, i as nat),
{
    let mut out: Vec<Branch> = Vec::new();
    let mut open: Vec<bool> = Vec::new();
    let mut i: usize = 0;
    assert(open@ =~= open_rows(depths@, 0));
    while i < depths.len()
        invariant
            i <= depths@.len(),
            out@.len() == i,
            open@ == open_rows(depths@, i as nat),
            forall|j: int|
                0 <= j < i ==> (#[trigger] out@[j]).prefix@ == prefix_of(depths@, j as nat)
                    && out@[j].output_prefix@ == output_prefix_of(depths@, j as nat),
        decreases depths@.len() - i,
    {
        let depth: usize = depths[i];
        let last = is_last(depths, i);
        open.truncate(depth);
        assert(open@ =~= above(depths@, i as nat));
        let mut prefix = String::new();
        let mut k: usize = 0;
        proof {
            assert(open@.take(0) =~= Seq::<bool>::empty());
            assert(prefix@ =~= Seq::<char>::empty());
        }
        while k < open.len()
            invariant
                k <= open@.len(),
                prefix@ == bars(open@.take(k as int)),
            decreases open@.len() - k,
        {
            proof {
                let next = open@.take(k + 1);
                assert(next.drop_last() =~= open@.take(k as int));
                assert(next.last() == open@[k as int]);
            }
            prefix.push_str(if open[k] {
                "   "
            } else {
                "│  "
            });
            k += 1;
        }
        assert(open@.take(k as int) =~= open@);
        let mut output_prefix = prefix.clone();
        output_prefix.push_str(if last {
            "   "
        } else {
            "│  "
        });
        output_prefix.push_str("  ");
        let ghost bars_only = prefix@;
        if depth > 0 {
            prefix.push_str(if last {
                "└─ "
            } else {
                "├─ "
            });
        } else {
            assert(bars_only + Seq::<char>::empty() =~= bars_only);
        }
        proof {
            reveal(prefix_of);
            reveal(output_prefix_of);
        }
        assert(prefix@ == prefix_of(depths@, i as nat));
        assert(output_prefix@ == output_prefix_of(depths@, i as nat));
        out.push(Branch { prefix, output_prefix });
        open.push(last);
        assert(open@ =~= open_rows(depths@, (i + 1) as nat));
        i += 1;
    }
    out
}

} // verus!
