//! Fetching posts by id: which ids go into which request, and what becomes
//! of the answers.
//!
//! The post service answers for at most `TWEETS_PER_REQUEST` ids at a time.
//! The ids of a call are put in order, each once, and cut into requests of
//! that size, which may run side by side. A caller may first cut the ids into
//! batches, which are worked off one after another.

use crate::model::IdentBuf;
use crate::numbers::{digit_value, is_digit};
use crate::scribe::ScribeFailure;
use crate::text::{chars_of, split_whitespace, views, words};
use vstd::prelude::*;

verus! {

/// The largest number of posts that the post service gives in one answer.
pub const TWEETS_PER_REQUEST: usize = 100;

/// Whether the sequence is in ascending order.
pub open spec fn ascending(s: Seq<u64>) -> bool {
    forall|i: int, j: int| 0 <= i <= j < s.len() ==> s[i] <= s[j]
}

/// Whether the sequence is in ascending order and holds nothing twice.
pub open spec fn strictly_ascending(s: Seq<u64>) -> bool {
    forall|i: int, j: int| 0 <= i < j < s.len() ==> s[i] < s[j]
}

/// The sequence without the elements that repeat the element before them.
pub open spec fn without_repeats(s: Seq<u64>) -> Seq<u64>
    decreases s.len(),
{
    if s.len() <= 1 {
        s
    } else if s[s.len() - 2] == s.last() {
        without_repeats(s.drop_last())
    } else {
        without_repeats(s.drop_last()).push(s.last())
    }
}

/// `<[u64]>::sort_unstable`: puts the elements in ascending order; the
/// vector holds the same elements as before, each as often as before.
#[verifier::external_body]
fn sort_ids(ids: &mut Vec<u64>)
    ensures
        ascending(final(ids)@),
        final(ids)@.to_multiset() == old(ids)@.to_multiset(),
{
    ids.sort_unstable()
}

/// The ids without those that repeat the id before them.
pub fn without_repeated(ids: &Vec<u64>) -> (r: Vec<u64>)
    ensures
        r@ == without_repeats(ids@),
{
    let mut out: Vec<u64> = Vec::new();
    let mut i: usize = 0;
    assert(ids@.take(0) =~= Seq::<u64>::empty());
    while i < ids.len()
        invariant
            i <= ids.len(),
            out@ == without_repeats(ids@.take(i as int)),
        decreases ids.len() - i,
    {
        proof {
            let t = ids@.take(i + 1);
            assert(t.last() == ids@[i as int]);
            assert(t.drop_last() =~= ids@.take(i as int));
            if i > 0 {
                assert(t[t.len() - 2] == ids@[i - 1]);
            } else {
                assert(t =~= seq![ids@[0]]);
            }
        }
        if i == 0 || ids[i - 1] != ids[i] {
            out.push(ids[i]);
        }
        i = i + 1;
    }
    assert(ids@.take(ids.len() as int) =~= ids@);
    out
}

/// Without its repeats an ascending sequence is strictly ascending, has the
/// same last element, and holds what it held before.
pub proof fn lemma_without_repeats(s: Seq<u64>)
    requires
        ascending(s),
    ensures
        strictly_ascending(without_repeats(s)),
        forall|x: u64| without_repeats(s).contains(x) <==> s.contains(x),
        s.len() > 0 ==> without_repeats(s).len() > 0 && without_repeats(s).last() == s.last(),
        without_repeats(s).len() <= s.len(),
    decreases s.len(),
{
    let r = without_repeats(s);
    if s.len() <= 1 {
    } else {
        let t = s.drop_last();
        let rt = without_repeats(t);
        assert(ascending(t)) by {
            assert forall|i: int, j: int| 0 <= i <= j < t.len() implies t[i] <= t[j] by {
                assert(t[i] == s[i] && t[j] == s[j]);
            }
        }
        lemma_without_repeats(t);
        assert(t.last() == s[s.len() - 2]);
        assert forall|x: u64| r.contains(x) <==> s.contains(x) by {
            if s.contains(x) {
                let i = choose|i: int| 0 <= i < s.len() && s[i] == x;
                if i < t.len() {
                    assert(t[i] == x);
                    assert(t.contains(x));
                    assert(rt.contains(x));
                    let k = choose|k: int| 0 <= k < rt.len() && rt[k] == x;
                    assert(r[k] == x);
                } else {
                    if s[s.len() - 2] == s.last() {
                        assert(rt.last() == x);
                        assert(r[rt.len() - 1] == x);
                    } else {
                        assert(r[r.len() - 1] == x);
                    }
                }
            }
            if r.contains(x) {
                let k = choose|k: int| 0 <= k < r.len() && r[k] == x;
                if k < rt.len() {
                    assert(rt[k] == x);
                    assert(rt.contains(x));
                    assert(t.contains(x));
                    let i = choose|i: int| 0 <= i < t.len() && t[i] == x;
                    assert(s[i] == x);
                } else {
                    assert(s[s.len() - 1] == x);
                }
            }
        }
        if s[s.len() - 2] != s.last() {
            assert forall|i: int, j: int| 0 <= i < j < r.len() implies r[i] < r[j] by {
                if j < rt.len() {
                    assert(rt[i] < rt[j]);
                } else {
                    assert(r[i] == rt[i]);
                    assert(rt[i] <= rt[rt.len() - 1]) by {
                        if i < rt.len() - 1 {
                            assert(rt[i] < rt[rt.len() - 1]);
                        }
                    }
                    assert(rt.last() == t.last());
                    assert(s[s.len() - 2] <= s[s.len() - 1]);
                }
            }
        }
    }
}

/// The ids in ascending order, each once.
pub fn unique_sorted(ids: &[u64]) -> (r: Vec<u64>)
    ensures
        strictly_ascending(r@),
        forall|x: u64| r@.contains(x) <==> ids@.contains(x),
        r.len() <= ids.len(),
{
    let mut out: Vec<u64> = Vec::new();
    let mut i: usize = 0;
    while i < ids.len()
        invariant
            i <= ids.len(),
            out@ == ids@.take(i as int),
        decreases ids.len() - i,
    {
        out.push(ids[i]);
        assert(ids@.take(i + 1) =~= ids@.take(i as int).push(ids@[i as int]));
        i = i + 1;
    }
    assert(ids@.take(ids.len() as int) =~= ids@);
    sort_ids(&mut out);
    let ghost sorted = out@;
    proof {
        broadcast use vstd::seq_lib::group_to_multiset_ensures;
        assert forall|x: u64| sorted.contains(x) <==> ids@.contains(x) by {
            assert(sorted.to_multiset().count(x) == ids@.to_multiset().count(x));
        }
        assert(sorted.len() == sorted.to_multiset().len());
        assert(ids@.len() == ids@.to_multiset().len());
        lemma_without_repeats(sorted);
    }
    let unique = without_repeated(&out);
    assert forall|x: u64| unique@.contains(x) <==> ids@.contains(x) by {
        assert(without_repeats(sorted).contains(x) <==> sorted.contains(x));
        assert(sorted.contains(x) <==> ids@.contains(x));
    }
    unique
}

/// The number of chunks of `size` elements at most into which `len` elements
/// are cut.
pub open spec fn chunk_count(len: int, size: int) -> int {
    if len <= 0 {
        0
    } else {
        (len + size - 1) / size
    }
}

/// The chunk at index `i` when `ids` is cut into chunks of `size` elements:
/// every chunk is full but the last, which holds what is left.
pub open spec fn chunk_at(ids: Seq<u64>, size: int, i: int) -> Seq<u64> {
    ids.subrange(
        i * size,
        if (i + 1) * size < ids.len() {
            (i + 1) * size
        } else {
            ids.len() as int
        },
    )
}

/// The views of a list of chunks.
pub open spec fn chunk_views(chunks: Seq<Vec<u64>>) -> Seq<Seq<u64>> {
    Seq::new(chunks.len(), |i: int| chunks[i]@)
}

/// Cuts the ids into chunks of `size` ids, in order. Every chunk is full but
/// the last, and none is empty.
pub fn chunks(ids: &[u64], size: usize) -> (r: Vec<Vec<u64>>)
    requires
        size >= 1,
    ensures
        r@.len() == chunk_count(ids@.len() as int, size as int),
        forall|i: int| 0 <= i < r@.len() ==> (#[trigger] r@[i])@ == chunk_at(ids@, size as int, i),
        forall|i: int| 0 <= i < r@.len() ==> 1 <= (#[trigger] r@[i])@.len() <= size,
        chunk_views(r@).flatten() == ids@,
{
    let n: usize = ids.len();
    let mut out: Vec<Vec<u64>> = Vec::new();
    let mut assigned: usize = 0;
    assert(chunk_views(out@) =~= Seq::<Seq<u64>>::empty());
    assert(ids@.take(0) =~= Seq::<u64>::empty());
    while assigned < n
        invariant
            n == ids.len(),
            size >= 1,
            assigned <= n,
            assigned == out@.len() * size || assigned == n,
            assigned == n ==> out@.len() == chunk_count(n as int, size as int),
            assigned < n ==> assigned == out@.len() * size,
            forall|i: int|
                0 <= i < out@.len() ==> (#[trigger] out@[i])@ == chunk_at(ids@, size as int, i),
            forall|i: int| 0 <= i < out@.len() ==> 1 <= (#[trigger] out@[i])@.len() <= size,
            chunk_views(out@).flatten() == ids@.take(assigned as int),
        decreases n - assigned,
    {
        let end: usize = if n - assigned < size {
            n
        } else {
            assigned + size
        };
        let ghost k = out@.len() as int;
        proof {
            assert((k + 1) * size == k * size + size) by (nonlinear_arith);
            if end == n {
                assert(n - 1 >= k * size);
                assert(n <= (k + 1) * size);
                assert((n + size - 1) / (size as int) == k + 1) by (nonlinear_arith)
                    requires
                        size >= 1,
                        k * size < n,
                        n <= (k + 1) * size,
                ;
            }
        }
        let mut chunk: Vec<u64> = Vec::new();
        let mut j: usize = assigned;
        while j < end
            invariant
                assigned <= j <= end <= n,
                n == ids.len(),
                chunk@ == ids@.subrange(assigned as int, j as int),
            decreases end - j,
        {
            chunk.push(ids[j]);
            assert(ids@.subrange(assigned as int, j + 1) =~= ids@.subrange(
                assigned as int,
                j as int,
            ).push(ids@[j as int]));
            j = j + 1;
        }
        proof {
            let before = chunk_views(out@);
            assert(chunk@ == chunk_at(ids@, size as int, k));
            assert(chunk_views(out@.push(chunk)) =~= before.push(chunk@));
            before.lemma_flatten_push(chunk@);
            assert(ids@.take(assigned as int) + ids@.subrange(assigned as int, end as int)
                =~= ids@.take(end as int));
        }
        out.push(chunk);
        assigned = end;
    }
    assert(ids@.take(n as int) =~= ids@);
    out
}

/// The requests for the posts of these ids: the ids in ascending order, each
/// once, in chunks of `TWEETS_PER_REQUEST`.
pub fn request_chunks(ids: &[u64]) -> (r: Vec<Vec<u64>>)
    ensures
        strictly_ascending(chunk_views(r@).flatten()),
        forall|x: u64| chunk_views(r@).flatten().contains(x) <==> ids@.contains(x),
        forall|i: int| 0 <= i < r@.len() ==> 1 <= (#[trigger] r@[i])@.len() <= TWEETS_PER_REQUEST,
        forall|i: int|
            0 <= i < r@.len() ==> (#[trigger] r@[i])@ == chunk_at(
                chunk_views(r@).flatten(),
                TWEETS_PER_REQUEST as int,
                i,
            ),
        r@.len() == chunk_count(
            chunk_views(r@).flatten().len() as int,
            TWEETS_PER_REQUEST as int,
        ),
{
    let unique = unique_sorted(ids);
    chunks(unique.as_slice(), TWEETS_PER_REQUEST)
}

/// The batches in which the ids are worked off: all at once where no batch
/// size is given, else in batches of that size, in order.
pub fn batches(ids: &[u64], batch_size: Option<usize>) -> (r: Vec<Vec<u64>>)
    requires
        batch_size matches Some(size) ==> size >= 1,
    ensures
        chunk_views(r@).flatten() == ids@,
        match batch_size {
            Some(size) => r@.len() == chunk_count(ids@.len() as int, size as int) && forall|i: int|
                0 <= i < r@.len() ==> (#[trigger] r@[i])@ == chunk_at(ids@, size as int, i),
            None => r@.len() == 1 && r@[0]@ == ids@,
        },
{
    match batch_size {
        Some(size) => chunks(ids, size),
        None => {
            let mut all: Vec<u64> = Vec::new();
            let mut i: usize = 0;
            while i < ids.len()
                invariant
                    i <= ids.len(),
                    all@ == ids@.take(i as int),
                decreases ids.len() - i,
            {
                all.push(ids[i]);
                assert(ids@.take(i + 1) =~= ids@.take(i as int).push(ids@[i as int]));
                i = i + 1;
            }
            assert(ids@.take(ids.len() as int) =~= ids@);
            let mut out: Vec<Vec<u64>> = Vec::new();
            out.push(all);
            proof {
                assert(chunk_views(out@) =~= seq![ids@]);
                seq![ids@].lemma_flatten_one_element();
            }
            out
        },
    }
}

/// What the answers to the requests of one call come to: the robots stored
/// for all of them, in the order of the requests, or the failure of the
/// first request that failed.
pub open spec fn merged(answers: Seq<Result<Vec<IdentBuf>, ScribeFailure>>) -> Result<
    Seq<IdentBuf>,
    ScribeFailure,
>
    decreases answers.len(),
{
    if answers.len() == 0 {
        Ok(Seq::empty())
    } else {
        match merged(answers.drop_last()) {
            Err(failure) => Err(failure),
            Ok(stored) => match answers.last() {
                Err(failure) => Err(failure),
                Ok(more) => Ok(stored + more@),
            },
        }
    }
}

/// A failure among the first `n` answers is the failure of them all.
pub proof fn lemma_merged_prefix(answers: Seq<Result<Vec<IdentBuf>, ScribeFailure>>, n: int)
    requires
        0 <= n <= answers.len(),
    ensures
        merged(answers.take(n)) matches Err(failure) ==> merged(answers) == Err::<
            Seq<IdentBuf>,
            ScribeFailure,
        >(failure),
    decreases answers.len() - n,
{
    if n == answers.len() {
        assert(answers.take(n) =~= answers);
    } else {
        assert(answers.take(n + 1).drop_last() =~= answers.take(n));
        lemma_merged_prefix(answers, n + 1);
    }
}

/// Puts the answers to the requests of one call together: one failure fails
/// the call.
pub fn merge_answers(answers: Vec<Result<Vec<IdentBuf>, ScribeFailure>>) -> (r: Result<
    Vec<IdentBuf>,
    ScribeFailure,
>)
    ensures
        match merged(answers@) {
            Ok(stored) => r matches Ok(v) && v@ == stored,
            Err(failure) => r == Err::<Vec<IdentBuf>, ScribeFailure>(failure),
        },
{
    let ghost all = answers@;
    let mut rest = answers;
    let mut reversed: Vec<Result<Vec<IdentBuf>, ScribeFailure>> = Vec::new();
    while rest.len() > 0
        invariant
            rest.len() <= all.len(),
            rest@ == all.take(rest.len() as int),
            reversed.len() == all.len() - rest.len(),
            forall|i: int|
                0 <= i < reversed.len() ==> #[trigger] reversed@[i] == all[all.len() - 1 - i],
        decreases rest.len(),
    {
        let answer = rest.pop().unwrap();
        reversed.push(answer);
        assert(rest@ =~= all.take(rest.len() as int));
    }
    let mut stored: Vec<IdentBuf> = Vec::new();
    assert(all.take(0) =~= Seq::<Result<Vec<IdentBuf>, ScribeFailure>>::empty());
    while reversed.len() > 0
        invariant
            reversed.len() <= all.len(),
            all == answers@,
            merged(all.take(all.len() - reversed.len())) == Ok::<Seq<IdentBuf>, ScribeFailure>(
                stored@,
            ),
            forall|i: int|
                0 <= i < reversed.len() ==> #[trigger] reversed@[i] == all[all.len() - 1 - i],
        decreases reversed.len(),
    {
        let ghost k = all.len() - reversed.len();
        let answer = reversed.pop().unwrap();
        proof {
            assert(answer == all[k]);
            assert(all.take(k + 1).drop_last() =~= all.take(k));
            assert(all.take(k + 1).last() == all[k]);
            lemma_merged_prefix(all, k + 1);
        }
        match answer {
            Ok(more) => {
                let mut more = more;
                stored.append(&mut more);
            },
            Err(failure) => {
                return Err(failure);
            },
        }
    }
    assert(all.take(all.len() as int) =~= all);
    Ok(stored)
}

/// The number that the digits `ds` continue from `acc`, from left to right;
/// none where a character is no digit or the number is no unsigned 64-bit
/// integer.
pub open spec fn read_unsigned(acc: nat, ds: Seq<char>) -> Option<nat>
    decreases ds.len(),
{
    if ds.len() == 0 {
        Some(acc)
    } else if !is_digit(ds[0]) || acc * 10 + digit_value(ds[0]) > u64::MAX {
        None
    } else {
        read_unsigned(acc * 10 + digit_value(ds[0]), ds.drop_first())
    }
}

/// The id that a word writes in decimal: digits, after a `+` where there is
/// one.
pub open spec fn read_id(word: Seq<char>) -> Option<nat> {
    if word.len() == 0 {
        None
    } else if word[0] == '+' {
        if word.len() == 1 {
            None
        } else {
            read_unsigned(0, word.drop_first())
        }
    } else {
        read_unsigned(0, word)
    }
}

/// Reads the id of a post written in decimal.
pub fn parse_id(word: &str) -> (r: Option<u64>)
    ensures
        match read_id(word@) {
            Some(n) => r == Some(n as u64) && n == n as u64,
            None => r is None,
        },
{
    let cs = chars_of(word);
    if cs.len() == 0 {
        return None;
    }
    let signed = cs[0] == '+';
    if signed && cs.len() == 1 {
        return None;
    }
    let mut i: usize = if signed {
        1
    } else {
        0
    };
    let mut acc: u64 = 0;
    assert(cs@.skip(0) =~= cs@);
    assert(cs@.skip(1) =~= cs@.drop_first());
    while i < cs.len()
        invariant
            i <= cs.len(),
            cs@ == word@,
            read_id(word@) == read_unsigned(acc as nat, cs@.skip(i as int)),
        decreases cs.len() - i,
    {
        let c = cs[i];
        proof {
            let t = cs@.skip(i as int);
            assert(t[0] == c);
            assert(t.drop_first() =~= cs@.skip(i + 1));
        }
        if !(c >= '0' && c <= '9') {
            return None;
        }
        let d: u64 = (c as u32 - 48) as u64;
        if acc > (u64::MAX - d) / 10 {
            assert(acc * 10 + d > u64::MAX);
            return None;
        }
        acc = acc * 10 + d;
        i = i + 1;
    }
    Some(acc)
}

/// The ids that the words write, in order, or the first word that writes
/// none.
pub open spec fn read_ids(ws: Seq<Seq<char>>) -> Result<Seq<u64>, Seq<char>>
    decreases ws.len(),
{
    if ws.len() == 0 {
        Ok(Seq::empty())
    } else {
        match read_ids(ws.drop_last()) {
            Err(word) => Err(word),
            Ok(ids) => match read_id(ws.last()) {
                Some(n) => Ok(ids.push(n as u64)),
                None => Err(ws.last()),
            },
        }
    }
}

/// A word among the first `n` that writes no id is the word at which the
/// reading of all the words fails.
pub proof fn lemma_read_ids_prefix(ws: Seq<Seq<char>>, n: int)
    requires
        0 <= n <= ws.len(),
    ensures
        read_ids(ws.take(n)) matches Err(word) ==> read_ids(ws) == Err::<Seq<u64>, Seq<char>>(
            word,
        ),
    decreases ws.len() - n,
{
    if n == ws.len() {
        assert(ws.take(n) =~= ws);
    } else {
        assert(ws.take(n + 1).drop_last() =~= ws.take(n));
        lemma_read_ids_prefix(ws, n + 1);
    }
}

/// Reads the ids of posts from a text in which whitespace stands between
/// them. Where a word is no id, that word is given back.
pub fn parse_ids<'a>(input: &'a str) -> (r: Result<Vec<u64>, &'a str>)
    ensures
        match read_ids(words(input@)) {
            Ok(ids) => r matches Ok(v) && v@ == ids,
            Err(word) => r matches Err(w) && w@ == word,
        },
{
    let ws = split_whitespace(input);
    let mut ids: Vec<u64> = Vec::new();
    let mut i: usize = 0;
    assert(views(ws@).take(0) =~= Seq::<Seq<char>>::empty());
    while i < ws.len()
        invariant
            i <= ws.len(),
            views(ws@) == words(input@),
            read_ids(views(ws@).take(i as int)) == Ok::<Seq<u64>, Seq<char>>(ids@),
        decreases ws.len() - i,
    {
        proof {
            let t = views(ws@).take(i + 1);
            assert(t.drop_last() =~= views(ws@).take(i as int));
            assert(t.last() == ws@[i as int]@);
            lemma_read_ids_prefix(views(ws@), i + 1);
        }
        match parse_id(ws[i]) {
            Some(id) => {
                ids.push(id);
            },
            None => {
                return Err(ws[i]);
            },
        }
        i = i + 1;
    }
    assert(views(ws@).take(ws.len() as int) =~= views(ws@));
    Ok(ids)
}

} // verus!
