//! The reconciliation vote: every report casts one vote for the digest it
//! carries, the node itself casts one vote for its own current root hash, and
//! the digest with the strictly highest tally wins.  Ties resolve to the
//! lexicographically smallest digest, so the outcome is a function of the
//! ballot alone.

use crate::strings::lemma_str_lt_asymmetric;
use crate::strings::lemma_str_lt_connected;
use crate::strings::lemma_str_lt_transitive;
use crate::strings::str_lt;
use crate::strings::str_lt_exec;
use vstd::prelude::*;

verus! {

/// The number of entries of `keys` equal to `c`.
pub open spec fn count_matches(keys: Seq<Seq<char>>, c: Seq<char>) -> nat
    decreases keys.len(),
{
    if keys.len() == 0 {
        0
    } else {
        count_matches(keys.drop_last(), c) + if keys.last() == c {
            1nat
        } else {
            0nat
        }
    }
}

/// The tally of the candidate digest `c`: one vote from the node itself when
/// `c` is its own current root hash, plus one vote per report that carries `c`.
pub open spec fn tally(own: Seq<char>, keys: Seq<Seq<char>>, c: Seq<char>) -> nat {
    (if c == own {
        1nat
    } else {
        0nat
    }) + count_matches(keys, c)
}

/// A digest that stands in the vote at all: the node's own current root hash
/// or a reported one.
pub open spec fn is_candidate(own: Seq<char>, keys: Seq<Seq<char>>, c: Seq<char>) -> bool {
    c == own || keys.contains(c)
}

/// `a` wins over `b`: strictly more votes, or the same number of votes and
/// `a` sorts first.
pub open spec fn beats(own: Seq<char>, keys: Seq<Seq<char>>, a: Seq<char>, b: Seq<char>) -> bool {
    ||| tally(own, keys, a) > tally(own, keys, b)
    ||| (tally(own, keys, a) == tally(own, keys, b) && str_lt(a, b))
}

/// `w` is the outcome of the vote: a candidate that wins over every other
/// candidate.
pub open spec fn is_winner(own: Seq<char>, keys: Seq<Seq<char>>, w: Seq<char>) -> bool {
    &&& is_candidate(own, keys, w)
    &&& forall|c: Seq<char>|
        #[trigger] is_candidate(own, keys, c) && c != w ==> beats(own, keys, w, c)
}

/// Of two distinct digests one wins over the other.
proof fn lemma_beats_total(own: Seq<char>, keys: Seq<Seq<char>>, a: Seq<char>, b: Seq<char>)
    requires
        a != b,
    ensures
        beats(own, keys, a, b) || beats(own, keys, b, a),
{
    lemma_str_lt_connected(a, b);
}

/// Winning over is transitive.
proof fn lemma_beats_transitive(
    own: Seq<char>,
    keys: Seq<Seq<char>>,
    a: Seq<char>,
    b: Seq<char>,
    c: Seq<char>,
)
    requires
        beats(own, keys, a, b),
        beats(own, keys, b, c),
    ensures
        beats(own, keys, a, c),
{
    if tally(own, keys, a) == tally(own, keys, b) && tally(own, keys, b) == tally(own, keys, c) {
        lemma_str_lt_transitive(a, b, c);
    }
}

/// The running best of the vote after looking at the first `i` reported
/// digests, starting from the node's own root hash.
pub open spec fn winner_upto(own: Seq<char>, keys: Seq<Seq<char>>, i: int) -> Seq<char>
    decreases i,
{
    if i <= 0 {
        own
    } else {
        let prev = winner_upto(own, keys, i - 1);
        if keys[i - 1] != prev && beats(own, keys, keys[i - 1], prev) {
            keys[i - 1]
        } else {
            prev
        }
    }
}

/// The outcome of the vote among the node's own root hash and all reported
/// digests.
pub open spec fn spec_winner(own: Seq<char>, keys: Seq<Seq<char>>) -> Seq<char> {
    winner_upto(own, keys, keys.len() as int)
}

proof fn lemma_winner_upto(own: Seq<char>, keys: Seq<Seq<char>>, i: int)
    requires
        0 <= i <= keys.len(),
    ensures
        ({
            let w = winner_upto(own, keys, i);
            &&& w == own || exists|j: int| 0 <= j < i && keys[j] == w
            &&& w != own ==> beats(own, keys, w, own)
            &&& forall|j: int| 0 <= j < i && keys[j] != w ==> beats(own, keys, w, #[trigger] keys[j])
        }),
    decreases i,
{
    if i > 0 {
        lemma_winner_upto(own, keys, i - 1);
        let prev = winner_upto(own, keys, i - 1);
        let w = winner_upto(own, keys, i);
        let k = keys[i - 1];
        if k != prev && beats(own, keys, k, prev) {
            // The new entry takes over; it wins over everything the previous
            // best won over.
            assert(w == k);
            if prev != own {
                lemma_beats_transitive(own, keys, k, prev, own);
            }
            assert forall|j: int| 0 <= j < i && keys[j] != w implies beats(
                own,
                keys,
                w,
                #[trigger] keys[j],
            ) by {
                if j < i - 1 {
                    if keys[j] == prev {
                        assert(beats(own, keys, w, keys[j]));
                    } else {
                        lemma_beats_transitive(own, keys, k, prev, keys[j]);
                    }
                }
            }
        } else {
            assert(w == prev);
            if k != prev {
                // The previous best stands, so it must win over the new entry.
                lemma_beats_total(own, keys, k, prev);
            }
        }
    }
}

/// The constructed vote outcome really is a winner: it is a candidate and
/// wins over every other candidate.
pub proof fn lemma_spec_winner_is_winner(own: Seq<char>, keys: Seq<Seq<char>>)
    ensures
        is_winner(own, keys, spec_winner(own, keys)),
{
    lemma_winner_upto(own, keys, keys.len() as int);
    let w = spec_winner(own, keys);
    assert forall|c: Seq<char>| #[trigger] is_candidate(own, keys, c) && c != w implies beats(
        own,
        keys,
        w,
        c,
    ) by {
        if c != own {
            let j = choose|j: int| 0 <= j < keys.len() && keys[j] == c;
            assert(beats(own, keys, w, keys[j]));
        }
    }
}

/// The vote has at most one winner: ties are settled by the string order, so
/// reconciliation is reproducible.
pub proof fn lemma_winner_unique(
    own: Seq<char>,
    keys: Seq<Seq<char>>,
    w1: Seq<char>,
    w2: Seq<char>,
)
    requires
        is_winner(own, keys, w1),
        is_winner(own, keys, w2),
    ensures
        w1 == w2,
{
    if w1 != w2 {
        assert(beats(own, keys, w1, w2));
        assert(beats(own, keys, w2, w1));
        lemma_str_lt_asymmetric(w1, w2);
    }
}

/// A candidate with strictly more votes than every other candidate wins the
/// vote outright; no tie-break is involved.
pub proof fn lemma_plurality_wins(own: Seq<char>, keys: Seq<Seq<char>>, c: Seq<char>)
    requires
        is_candidate(own, keys, c),
        forall|d: Seq<char>|
            #[trigger] is_candidate(own, keys, d) && d != c ==> tally(own, keys, c) > tally(
                own,
                keys,
                d,
            ),
    ensures
        spec_winner(own, keys) == c,
{
    lemma_spec_winner_is_winner(own, keys);
    let w = spec_winner(own, keys);
    if w != c {
        assert(is_candidate(own, keys, w));
        assert(beats(own, keys, w, c));
        assert(tally(own, keys, c) > tally(own, keys, w));
    }
}

/// Two distinct digests never share a report's vote.
proof fn lemma_count_matches_pair_bound(keys: Seq<Seq<char>>, c: Seq<char>, d: Seq<char>)
    requires
        c != d,
    ensures
        count_matches(keys, c) + count_matches(keys, d) <= keys.len(),
    decreases keys.len(),
{
    if keys.len() > 0 {
        lemma_count_matches_pair_bound(keys.drop_last(), c, d);
    }
}

/// A strict majority needs no tie-break: a candidate holding more than half
/// of all votes cast — one per report plus the node's own — wins the vote.
pub proof fn lemma_majority_wins(own: Seq<char>, keys: Seq<Seq<char>>, c: Seq<char>)
    requires
        is_candidate(own, keys, c),
        2 * tally(own, keys, c) > keys.len() + 1,
    ensures
        spec_winner(own, keys) == c,
{
    assert forall|d: Seq<char>| #[trigger] is_candidate(own, keys, d) && d != c implies tally(
        own,
        keys,
        c,
    ) > tally(own, keys, d) by {
        lemma_count_matches_pair_bound(keys, c, d);
    }
    lemma_plurality_wins(own, keys, c);
}

/// The winner goes unreported exactly when the node's own current root hash
/// wins the vote without any report carrying it.  In that case — and only in
/// that case — reconciliation has nothing to adopt and is a no-op.
pub proof fn lemma_unreported_winner_is_own(own: Seq<char>, keys: Seq<Seq<char>>)
    ensures
        !keys.contains(spec_winner(own, keys)) <==> (spec_winner(own, keys) == own
            && !keys.contains(own)),
{
    lemma_spec_winner_is_winner(own, keys);
}

/// The digest each report carries, in report order.
pub open spec fn report_keys(req: Seq<(String, Vec<String>)>) -> Seq<Seq<char>> {
    req.map_values(|p: (String, Vec<String>)| p.0@)
}

/// The position of the first entry of `keys` equal to `w`.
pub open spec fn first_index(keys: Seq<Seq<char>>, w: Seq<char>) -> int
    decreases keys.len(),
{
    if keys.len() == 0 {
        0
    } else if keys[0] == w {
        0
    } else {
        1 + first_index(keys.drop_first(), w)
    }
}

/// `first_index` finds exactly the first match.
pub proof fn lemma_first_index(keys: Seq<Seq<char>>, w: Seq<char>, i: int)
    requires
        0 <= i < keys.len(),
        keys[i] == w,
        forall|j: int| 0 <= j < i ==> keys[j] != w,
    ensures
        first_index(keys, w) == i,
    decreases i,
{
    if keys[0] != w {
        let rest = keys.drop_first();
        assert(rest[i - 1] == keys[i]);
        assert(forall|j: int| 0 <= j < i - 1 ==> rest[j] == keys[j + 1] && keys[j + 1] != w);
        lemma_first_index(rest, w, i - 1);
    }
}

/// Counts the votes for the digest `c`: one from the node itself when `c` is
/// `own`, plus one per report whose digest equals `c`.
pub(crate) fn count_tally(own: &String, req: &Vec<(String, Vec<String>)>, c: &String) -> (t: u128)
    ensures
        t == tally(own@, report_keys(req@), c@),
{
    let ghost keys = report_keys(req@);
    let mut t: u128 = if c.eq(own) {
        1
    } else {
        0
    };
    proof {
        assert(keys.take(0) =~= Seq::<Seq<char>>::empty());
    }
    let n = req.len();
    let mut i: usize = 0;
    while i < n
        invariant
            i <= n,
            n == req@.len(),
            keys == report_keys(req@),
            keys.len() == n,
            t == (if c@ == own@ {
                1nat
            } else {
                0nat
            }) + count_matches(keys.take(i as int), c@),
            t <= 1 + i,
        decreases n - i,
    {
        proof {
            assert(keys.take(i as int + 1).drop_last() =~= keys.take(i as int));
            assert(keys.take(i as int + 1).last() == keys[i as int]);
            assert(keys[i as int] == req@[i as int].0@);
        }
        if req[i].0.eq(c) {
            t = t + 1;
        }
        i = i + 1;
    }
    proof {
        assert(keys.take(n as int) =~= keys);
    }
    t
}

/// Runs the vote: the winning digest among the node's own current root hash
/// and every reported digest.
pub(crate) fn compute_winner(own: &String, req: &Vec<(String, Vec<String>)>) -> (w: String)
    ensures
        w@ == spec_winner(own@, report_keys(req@)),
{
    let ghost keys = report_keys(req@);
    let mut best: String = own.clone();
    let n = req.len();
    let mut i: usize = 0;
    while i < n
        invariant
            i <= n,
            n == req@.len(),
            keys == report_keys(req@),
            keys.len() == n,
            best@ == winner_upto(own@, keys, i as int),
        decreases n - i,
    {
        let tk = count_tally(own, req, &req[i].0);
        let tb = count_tally(own, req, &best);
        let take_it = tk > tb || (tk == tb && str_lt_exec(req[i].0.as_str(), best.as_str()));
        proof {
            assert(keys[i as int] == req@[i as int].0@);
            lemma_str_lt_asymmetric(keys[i as int], best@);
        }
        if take_it {
            best = req[i].0.clone();
        }
        i = i + 1;
    }
    best
}

} // verus!
