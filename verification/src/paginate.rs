//! Pagination: the cleaned text is cut into consecutive chunks of a fixed
//! number of characters, the chunks are numbered from one, each page holds
//! its chunk's trimmed text, and pages whose trimmed text is too short are
//! dropped.  A dropped page leaves a gap in the numbering: page numbers
//! index chunk position, not output position.

use vstd::prelude::*;

use crate::text::chars_of;
use crate::text::copy_range;
use crate::text::is_space;
use crate::text::is_space_char;
use crate::text::string_from_chars;

verus! {

/// `s` without its leading whitespace.
pub open spec fn trim_front(s: Seq<char>) -> Seq<char>
    decreases s.len(),
{
    if s.len() > 0 && is_space_char(s[0]) {
        trim_front(s.drop_first())
    } else {
        s
    }
}

/// `s` without its trailing whitespace.
pub open spec fn trim_back(s: Seq<char>) -> Seq<char>
    decreases s.len(),
{
    if s.len() > 0 && is_space_char(s.last()) {
        trim_back(s.drop_last())
    } else {
        s
    }
}

/// `s` without its leading and trailing whitespace.
pub open spec fn trim(s: Seq<char>) -> Seq<char> {
    trim_back(trim_front(s))
}

/// The consecutive chunks of `s`, each exactly `k` characters except the
/// last, which holds the remainder.
pub open spec fn chunks(s: Seq<char>, k: nat) -> Seq<Seq<char>>
    decreases s.len(),
    when k >= 1
{
    if s.len() == 0 {
        Seq::empty()
    } else if s.len() <= k {
        seq![s]
    } else {
        seq![s.take(k as int)] + chunks(s.skip(k as int), k)
    }
}

/// The pages that survive the length filter, as (page number, trimmed
/// text) pairs: chunk `i` of `cs` becomes page `n0 + i`, and a page stays
/// exactly when its trimmed text has at least `m` characters.
pub open spec fn select_pages(cs: Seq<Seq<char>>, m: nat, n0: int) -> Seq<(int, Seq<char>)>
    decreases cs.len(),
{
    if cs.len() == 0 {
        Seq::empty()
    } else {
        let t = trim(cs[0]);
        let rest = select_pages(cs.drop_first(), m, n0 + 1);
        if m <= t.len() {
            seq![(n0, t)] + rest
        } else {
            rest
        }
    }
}

/// The full pagination of `s`: chunks of `k` characters, numbered from 1,
/// trimmed, filtered by minimum length `m`.
pub open spec fn paged(s: Seq<char>, k: nat, m: nat) -> Seq<(int, Seq<char>)> {
    select_pages(chunks(s, k), m, 1)
}

/// One emitted page: its chunk position (counted from 1 over all chunks,
/// dropped pages included) and its trimmed text.
pub struct Page {
    pub page_number: usize,
    pub text_content: String,
}

impl Page {
    /// The mathematical value of a page.
    pub open spec fn model(self) -> (int, Seq<char>) {
        (self.page_number as int, self.text_content@)
    }
}

/// The mathematical value of an emitted page list.
pub open spec fn page_models(ps: Seq<Page>) -> Seq<(int, Seq<char>)> {
    ps.map_values(|p: Page| p.model())
}

/// Removes leading and trailing whitespace characters.
pub fn trim_chars(v: &Vec<char>) -> (out: Vec<char>)
    ensures
        out@ == trim(v@),
{
    let n: usize = v.len();
    let mut lo: usize = 0;
    while lo < n && is_space(v[lo])
        invariant
            lo <= n == v@.len(),
            forall|j: int| 0 <= j < lo ==> is_space_char(#[trigger] v@[j]),
        decreases n - lo,
    {
        lo = lo + 1;
    }
    if lo == n {
        proof {
            lemma_trim_front_all_space(v@, lo as int);
            assert(trim(v@) =~= Seq::<char>::empty());
        }
        return Vec::new();
    }
    let mut hi: usize = n;
    while hi > lo + 1 && is_space(v[hi - 1])
        invariant
            lo < hi <= n == v@.len(),
            !is_space_char(v@[lo as int]),
            forall|j: int| hi <= j < n ==> is_space_char(#[trigger] v@[j]),
        decreases hi,
    {
        hi = hi - 1;
    }
    let out = copy_range(v, lo, hi);
    proof {
        lemma_trim_front_skip(v@, lo as int);
        let f = v@.skip(lo as int);
        if hi == lo + 1 && is_space_char(v@[(hi - 1) as int]) {
            assert(false);
        }
        assert(forall|j: int| hi - lo <= j < f.len() ==> is_space_char(#[trigger] f[j]));
        assert(!is_space_char(f[hi - lo - 1]));
        lemma_trim_back_take(f, hi - lo);
        assert(f.take(hi - lo) =~= v@.subrange(lo as int, hi as int));
    }
    out
}

/// A text of nothing but whitespace trims from the front to nothing.
proof fn lemma_trim_front_all_space(s: Seq<char>, k: int)
    requires
        0 <= k <= s.len(),
        forall|j: int| 0 <= j < k ==> is_space_char(#[trigger] s[j]),
        k == s.len(),
    ensures
        trim_front(s).len() == 0,
    decreases s.len(),
{
    if s.len() > 0 {
        assert(is_space_char(s[0]));
        let d = s.drop_first();
        assert(forall|j: int| 0 <= j < d.len() ==> is_space_char(#[trigger] d[j]));
        lemma_trim_front_all_space(d, k - 1);
    }
}

/// Trimming the front removes exactly the leading run of whitespace.
proof fn lemma_trim_front_skip(s: Seq<char>, k: int)
    requires
        0 <= k <= s.len(),
        forall|j: int| 0 <= j < k ==> is_space_char(#[trigger] s[j]),
        k < s.len() ==> !is_space_char(s[k]),
    ensures
        trim_front(s) == s.skip(k),
    decreases k,
{
    if k == 0 {
        assert(s.skip(0) =~= s);
    } else {
        assert(is_space_char(s[0]));
        let d = s.drop_first();
        assert(forall|j: int| 0 <= j < k - 1 ==> is_space_char(#[trigger] d[j]));
        assert(k - 1 < d.len() ==> !is_space_char(d[k - 1]));
        lemma_trim_front_skip(d, k - 1);
        assert(d.skip(k - 1) =~= s.skip(k));
    }
}

/// Trimming the back removes exactly the trailing run of whitespace.
proof fn lemma_trim_back_take(s: Seq<char>, k: int)
    requires
        0 <= k <= s.len(),
        forall|j: int| k <= j < s.len() ==> is_space_char(#[trigger] s[j]),
        k > 0 ==> !is_space_char(s[k - 1]),
    ensures
        trim_back(s) == s.take(k),
    decreases s.len(),
{
    if k == s.len() {
        if s.len() > 0 {
            assert(!is_space_char(s.last()));
        }
        assert(s.take(k) =~= s);
    } else {
        assert(is_space_char(s.last()));
        let d = s.drop_last();
        assert(forall|j: int| k <= j < d.len() ==> is_space_char(#[trigger] d[j]));
        lemma_trim_back_take(d, k);
        assert(d.take(k) =~= s.take(k));
    }
}

/// Cuts `text` into consecutive chunks of `chunk_size` characters, numbers
/// them from 1, trims each, and keeps those whose trimmed text holds at
/// least `min_length` characters.  Dropped chunks leave gaps in the page
/// numbers of the survivors.
pub fn paginate(text: &str, chunk_size: usize, min_length: usize) -> (pages: Vec<Page>)
    requires
        chunk_size >= 1,
    ensures
        page_models(pages@) == paged(text@, chunk_size as nat, min_length as nat),
        forall|i: int, j: int|
            0 <= i < j < pages@.len() ==> pages@[i].page_number < pages@[j].page_number,
        forall|i: int|
            0 <= i < pages@.len() ==> min_length <= (#[trigger] pages@[i]).text_content@.len(),
{
    let v = chars_of(text);
    let n: usize = v.len();
    let ghost k = chunk_size as nat;
    let ghost m = min_length as nat;
    let mut pages: Vec<Page> = Vec::new();
    let mut pos: usize = 0;
    let mut idx: usize = 0;
    proof {
        assert(v@.skip(0) =~= v@);
    }
    while pos < n
        invariant
            n == v@.len(),
            v@ == text@,
            chunk_size >= 1,
            k == chunk_size as nat,
            m == min_length as nat,
            pos <= n,
            idx <= pos,
            pos < n ==> pos == idx * chunk_size,
            page_models(pages@) + select_pages(chunks(v@.skip(pos as int), k), m, idx + 1)
                == paged(v@, k, m),
            forall|i: int, j: int|
                0 <= i < j < pages@.len() ==> pages@[i].page_number < pages@[j].page_number,
            forall|i: int|
                0 <= i < pages@.len() ==> min_length <= (#[trigger] pages@[i]).text_content@.len(),
            forall|i: int| 0 <= i < pages@.len() ==> (#[trigger] pages@[i]).page_number <= idx,
        decreases n - pos,
    {
        let rem: usize = n - pos;
        let end: usize = if rem > chunk_size {
            pos + chunk_size
        } else {
            n
        };
        let chunk = copy_range(&v, pos, end);
        let trimmed = trim_chars(&chunk);
        let ghost old_pages = pages@;
        let ghost rest = v@.skip(pos as int);
        let ghost cs = chunks(rest, k);
        proof {
            assert(rest.len() == n - pos);
            if rem > chunk_size {
                assert(cs == seq![rest.take(k as int)] + chunks(rest.skip(k as int), k));
                assert(rest.take(k as int) =~= v@.subrange(pos as int, end as int));
                assert(rest.skip(k as int) =~= v@.skip(end as int));
            } else {
                assert(cs == seq![rest]);
                assert(rest =~= v@.subrange(pos as int, end as int));
                assert(v@.skip(end as int) =~= Seq::<char>::empty());
                assert(chunks(v@.skip(end as int), k) == Seq::<Seq<char>>::empty());
            }
            assert(cs.len() > 0);
            assert(cs[0] == chunk@);
            assert(cs.drop_first() =~= chunks(v@.skip(end as int), k));
        }
        if trimmed.len() >= min_length {
            let number: usize = idx + 1;
            let page = Page { page_number: number, text_content: string_from_chars(&trimmed) };
            pages.push(page);
            proof {
                assert(page_models(pages@) =~= page_models(old_pages).push(page.model()));
                assert(select_pages(cs, m, idx + 1) == seq![(idx + 1 as int, trim(chunk@))]
                    + select_pages(cs.drop_first(), m, idx + 2));
                assert(page_models(old_pages).push(page.model()) + select_pages(
                    cs.drop_first(),
                    m,
                    idx + 2,
                ) =~= page_models(old_pages) + select_pages(cs, m, idx + 1));
            }
        } else {
            proof {
                assert(select_pages(cs, m, idx + 1) == select_pages(cs.drop_first(), m, idx + 2));
            }
        }
        proof {
            assert((idx + 1) * chunk_size == idx * chunk_size + chunk_size) by (nonlinear_arith);
        }
        pos = end;
        idx = idx + 1;
    }
    proof {
        assert(v@.skip(pos as int) =~= Seq::<char>::empty());
        assert(chunks(v@.skip(pos as int), k) == Seq::<Seq<char>>::empty());
        assert(page_models(pages@) + Seq::<(int, Seq<char>)>::empty() =~= page_models(pages@));
    }
    pages
}

/// The raw chunk texts of `text`, before trimming and filtering.
pub fn chunk_texts(text: &str, chunk_size: usize) -> (ts: Vec<String>)
    requires
        chunk_size >= 1,
    ensures
        ts@.map_values(|t: String| t@) == chunks(text@, chunk_size as nat),
{
    let v = chars_of(text);
    let n: usize = v.len();
    let ghost k = chunk_size as nat;
    let mut ts: Vec<String> = Vec::new();
    let mut pos: usize = 0;
    proof {
        assert(v@.skip(0) =~= v@);
    }
    while pos < n
        invariant
            n == v@.len(),
            v@ == text@,
            chunk_size >= 1,
            k == chunk_size as nat,
            pos <= n,
            ts@.map_values(|t: String| t@) + chunks(v@.skip(pos as int), k)
                == chunks(v@, k),
        decreases n - pos,
    {
        let rem: usize = n - pos;
        let end: usize = if rem > chunk_size {
            pos + chunk_size
        } else {
            n
        };
        let chunk = copy_range(&v, pos, end);
        let ghost old_ts = ts@;
        let ghost rest = v@.skip(pos as int);
        let ghost cs = chunks(rest, k);
        ts.push(string_from_chars(&chunk));
        proof {
            if rem > chunk_size {
                assert(cs == seq![rest.take(k as int)] + chunks(rest.skip(k as int), k));
                assert(rest.take(k as int) =~= v@.subrange(pos as int, end as int));
                assert(rest.skip(k as int) =~= v@.skip(end as int));
            } else {
                assert(cs == seq![rest]);
                assert(rest =~= v@.subrange(pos as int, end as int));
                assert(v@.skip(end as int) =~= Seq::<char>::empty());
                assert(chunks(v@.skip(end as int), k) == Seq::<Seq<char>>::empty());
            }
            assert(cs.drop_first() =~= chunks(v@.skip(end as int), k));
            assert(ts@.map_values(|t: String| t@) =~= old_ts.map_values(|t: String| t@).push(
                chunk@,
            ));
            assert(old_ts.map_values(|t: String| t@).push(chunk@) + chunks(
                v@.skip(end as int),
                k,
            ) =~= old_ts.map_values(|t: String| t@) + cs);
        }
        pos = end;
    }
    proof {
        assert(v@.skip(pos as int) =~= Seq::<char>::empty());
        assert(chunks(v@.skip(pos as int), k) == Seq::<Seq<char>>::empty());
        assert(ts@.map_values(|t: String| t@) + Seq::<Seq<char>>::empty() =~= ts@.map_values(
            |t: String| t@,
        ));
    }
    ts
}

/// Concatenating the raw chunk texts, before trimming and filtering,
/// reconstructs the input exactly, for any text and any chunk size.
pub proof fn lemma_chunks_cover(s: Seq<char>, k: nat)
    requires
        k >= 1,
    ensures
        chunks(s, k).flatten() == s,
    decreases s.len(),
{
    if s.len() == 0 {
        assert(chunks(s, k).flatten() =~= s);
    } else if s.len() <= k {
        let cs = chunks(s, k);
        assert(cs == seq![s]);
        assert(cs.drop_first() =~= Seq::<Seq<char>>::empty());
        assert(cs.flatten() == s + Seq::<Seq<char>>::empty().flatten());
        assert(cs.flatten() =~= s);
    } else {
        let cs = chunks(s, k);
        lemma_chunks_cover(s.skip(k as int), k);
        assert(cs.drop_first() =~= chunks(s.skip(k as int), k));
        assert(cs.flatten() == s.take(k as int) + cs.drop_first().flatten());
        assert(s.take(k as int) + s.skip(k as int) =~= s);
    }
}

/// Every chunk but the last holds exactly `k` characters, and the last
/// holds between 1 and `k`: a chunk boundary never falls inside a
/// character, and no chunk is empty.
pub proof fn lemma_chunk_sizes(s: Seq<char>, k: nat)
    requires
        k >= 1,
    ensures
        forall|i: int|
            0 <= i < chunks(s, k).len() - 1 ==> (#[trigger] chunks(s, k)[i]).len() == k,
        chunks(s, k).len() > 0 ==> 0 < chunks(s, k).last().len() <= k,
        s.len() == 0 <==> chunks(s, k).len() == 0,
    decreases s.len(),
{
    if s.len() == 0 {
    } else if s.len() <= k {
    } else {
        let cs = chunks(s, k);
        lemma_chunk_sizes(s.skip(k as int), k);
        let rest = chunks(s.skip(k as int), k);
        assert(cs.drop_first() =~= rest);
        assert forall|i: int| 0 <= i < cs.len() - 1 implies (#[trigger] cs[i]).len() == k by {
            if i == 0 {
                assert(cs[0] == s.take(k as int));
            } else {
                assert(cs[i] == rest[i - 1]);
            }
        }
        assert(cs.last() == rest.last());
    }
}

/// Every chunk is a contiguous slice of the input's character sequence:
/// a chunk boundary falls between characters, never inside one.
pub proof fn lemma_chunk_is_slice(s: Seq<char>, k: nat, i: int)
    requires
        k >= 1,
        0 <= i < chunks(s, k).len(),
    ensures
        0 <= i * k,
        i * k + chunks(s, k)[i].len() <= s.len(),
        chunks(s, k)[i] == s.subrange(i * k, i * k + chunks(s, k)[i].len() as int),
    decreases s.len(),
{
    if s.len() <= k {
        assert(chunks(s, k)[0] == s);
        assert(s.subrange(0, s.len() as int) =~= s);
    } else if i == 0 {
        assert(chunks(s, k)[0] == s.take(k as int));
        assert(s.take(k as int) =~= s.subrange(0, k as int));
    } else {
        let rest = chunks(s.skip(k as int), k);
        assert(chunks(s, k)[i] == rest[i - 1]);
        lemma_chunk_is_slice(s.skip(k as int), k, i - 1);
        let a = (i - 1) * k;
        let b = a + rest[i - 1].len();
        assert(i * k == (i - 1) * k + k) by (nonlinear_arith);
        assert(0 <= a && b + k <= s.len());
        assert(s.skip(k as int).subrange(a, b) =~= s.subrange(a + k, b + k));
    }
}

/// With a minimum length of zero every chunk is retained, so the page
/// count equals the chunk count.
pub proof fn lemma_zero_min_keeps_all(cs: Seq<Seq<char>>, n0: int)
    ensures
        select_pages(cs, 0, n0).len() == cs.len(),
    decreases cs.len(),
{
    if cs.len() > 0 {
        lemma_zero_min_keeps_all(cs.drop_first(), n0 + 1);
    }
}

/// The emitted page numbers are strictly increasing, stay within the
/// range of chunk positions, and each page holds the trimmed text of the
/// chunk its number points at, with at least `m` characters.
pub proof fn lemma_select_pages_sound(cs: Seq<Seq<char>>, m: nat, n0: int)
    ensures
        forall|i: int, j: int|
            0 <= i < j < select_pages(cs, m, n0).len() ==> select_pages(cs, m, n0)[i].0
                < select_pages(cs, m, n0)[j].0,
        forall|i: int|
            0 <= i < select_pages(cs, m, n0).len() ==> {
                let p = #[trigger] select_pages(cs, m, n0)[i];
                &&& n0 <= p.0 < n0 + cs.len()
                &&& p.1 == trim(cs[p.0 - n0])
                &&& m <= p.1.len()
            },
    decreases cs.len(),
{
    if cs.len() > 0 {
        lemma_select_pages_sound(cs.drop_first(), m, n0 + 1);
        let rest = select_pages(cs.drop_first(), m, n0 + 1);
        let all = select_pages(cs, m, n0);
        let t = trim(cs[0]);
        assert(forall|i: int|
            0 <= i < cs.drop_first().len() ==> #[trigger] cs.drop_first()[i] == cs[i + 1]);
        if m <= t.len() {
            assert(all == seq![(n0, t)] + rest);
            assert(all[0] == (n0, t));
            assert(forall|i: int| 1 <= i < all.len() ==> all[i] == rest[i - 1]);
        } else {
            assert(all == rest);
        }
    }
}

} // verus!
