//! Stream framing: buffer incoming bytes and split them into complete top-level
//! XML fragments (stanzas) at known closing tags, self-closing root elements,
//! and the initial stream header. This is a depth-0 boundary heuristic, not a
//! parser: the recognized substrings are assumed never to occur inside
//! attribute values or character data of an in-flight fragment.

use vstd::prelude::*;
use vstd::utf8::*;

verus! {

/// True when `pat` occurs in `s` starting at index `i`.
pub open spec fn match_at(s: Seq<u8>, pat: Seq<u8>, i: int) -> bool {
    &&& 0 <= i
    &&& i + pat.len() <= s.len()
    &&& s.subrange(i, i + pat.len() as int) == pat
}

/// The leftmost index at or after `from` where `pat` occurs in `s`.
pub open spec fn find_pat(s: Seq<u8>, pat: Seq<u8>, from: int) -> Option<int>
    decreases s.len() - from + 1,
{
    if from < 0 || from + pat.len() > s.len() {
        None
    } else if match_at(s, pat, from) {
        Some(from)
    } else {
        find_pat(s, pat, from + 1)
    }
}

pub proof fn lemma_find_pat_some(s: Seq<u8>, pat: Seq<u8>, from: int)
    requires
        find_pat(s, pat, from) is Some,
    ensures
        ({
            let i = find_pat(s, pat, from)->Some_0;
            &&& from <= i
            &&& match_at(s, pat, i)
            &&& forall|j: int| from <= j < i ==> !match_at(s, pat, j)
        }),
    decreases s.len() - from + 1,
{
    if from < 0 || from + pat.len() > s.len() {
    } else if match_at(s, pat, from) {
    } else {
        lemma_find_pat_some(s, pat, from + 1);
    }
}

/// True when `r` reports the same search result as `o` (an executable
/// `Option<usize>` against a specification-level `Option<int>`).
pub open spec fn same_index(r: Option<usize>, o: Option<int>) -> bool {
    match r {
        Some(i) => o == Some(i as int),
        None => o is None,
    }
}

/// Whether `pat` occurs in `s` at index `i`.
fn eq_at(s: &[u8], pat: &[u8], i: usize) -> (r: bool)
    requires
        i + pat@.len() <= s@.len(),
    ensures
        r == match_at(s@, pat@, i as int),
{
    let n: usize = s.len();
    let mut j: usize = 0;
    while j < pat.len()
        invariant
            i + pat@.len() <= s@.len(),
            n == s@.len(),
            j <= pat@.len(),
            forall|k: int| 0 <= k < j ==> s@[i + k] == pat@[k],
        decreases pat@.len() - j,
    {
        assert(i + j < s@.len());
        if s[i + j] != pat[j] {
            assert(s@.subrange(i as int, i + pat@.len() as int)[j as int] != pat@[j as int]);
            return false;
        }
        j = j + 1;
    }
    assert(s@.subrange(i as int, i + pat@.len() as int) =~= pat@);
    true
}

/// Leftmost occurrence of `pat` in `s` at or after `from`.
fn find_sub(s: &[u8], pat: &[u8], from: usize) -> (r: Option<usize>)
    requires
        pat@.len() >= 1,
    ensures
        same_index(r, find_pat(s@, pat@, from as int)),
{
    if from > s.len() || pat.len() > s.len() - from {
        return None;
    }
    let mut i: usize = from;
    while i <= s.len() - pat.len()
        invariant
            from <= i,
            1 <= pat@.len() <= s@.len(),
            i <= s@.len(),
            find_pat(s@, pat@, from as int) == find_pat(s@, pat@, i as int),
        decreases s@.len() - i,
    {
        if eq_at(s, pat, i) {
            assert(find_pat(s@, pat@, i as int) == Some(i as int));
            return Some(i);
        }
        assert(find_pat(s@, pat@, i as int) == find_pat(s@, pat@, i + 1));
        i = i + 1;
    }
    None
}

// ---------------------------------------------------------------------------
// Boundary tables. Fragments end at the leftmost occurrence of a known
// top-level closing tag, the leftmost self-closing root element from a fixed
// allow-list, or (while awaiting the stream header) the stream-opening tag.
// ---------------------------------------------------------------------------

/// Number of known top-level closing tags.
pub open spec fn close_tag_count() -> int {
    27
}

/// The `k`-th known top-level closing tag, as its byte sequence.
pub open spec fn close_tag(k: int) -> Seq<u8> {
    if k == 0 {
        seq![60u8, 47u8, 105u8, 113u8, 62u8]  // </iq>
    } else
    if k == 1 {
        seq![60u8, 47u8, 109u8, 101u8, 115u8, 115u8, 97u8, 103u8, 101u8, 62u8]  // </message>
    } else
    if k == 2 {
        seq![60u8, 47u8, 112u8, 114u8, 101u8, 115u8, 101u8, 110u8, 99u8, 101u8, 62u8]  // </presence>
    } else
    if k == 3 {
        seq![60u8, 47u8, 115u8, 116u8, 114u8, 101u8, 97u8, 109u8, 58u8, 102u8, 101u8, 97u8, 116u8, 117u8, 114u8, 101u8, 115u8, 62u8]  // </stream:features>
    } else
    if k == 4 {
        seq![60u8, 47u8, 115u8, 116u8, 114u8, 101u8, 97u8, 109u8, 58u8, 115u8, 116u8, 114u8, 101u8, 97u8, 109u8, 62u8]  // </stream:stream>
    } else
    if k == 5 {
        seq![60u8, 47u8, 115u8, 116u8, 114u8, 101u8, 97u8, 109u8, 62u8]  // </stream>
    } else
    if k == 6 {
        seq![60u8, 47u8, 115u8, 116u8, 114u8, 101u8, 97u8, 109u8, 58u8, 101u8, 114u8, 114u8, 111u8, 114u8, 62u8]  // </stream:error>
    } else
    if k == 7 {
        seq![60u8, 47u8, 101u8, 114u8, 114u8, 111u8, 114u8, 62u8]  // </error>
    } else
    if k == 8 {
        seq![60u8, 47u8, 99u8, 104u8, 97u8, 108u8, 108u8, 101u8, 110u8, 103u8, 101u8, 62u8]  // </challenge>
    } else
    if k == 9 {
        seq![60u8, 47u8, 115u8, 117u8, 99u8, 99u8, 101u8, 115u8, 115u8, 62u8]  // </success>
    } else
    if k == 10 {
        seq![60u8, 47u8, 102u8, 97u8, 105u8, 108u8, 117u8, 114u8, 101u8, 62u8]  // </failure>
    } else
    if k == 11 {
        seq![60u8, 47u8, 97u8, 117u8, 116u8, 104u8, 62u8]  // </auth>
    } else
    if k == 12 {
        seq![60u8, 47u8, 114u8, 101u8, 115u8, 112u8, 111u8, 110u8, 115u8, 101u8, 62u8]  // </response>
    } else
    if k == 13 {
        seq![60u8, 47u8, 97u8, 98u8, 111u8, 114u8, 116u8, 62u8]  // </abort>
    } else
    if k == 14 {
        seq![60u8, 47u8, 115u8, 116u8, 97u8, 114u8, 116u8, 116u8, 108u8, 115u8, 62u8]  // </starttls>
    } else
    if k == 15 {
        seq![60u8, 47u8, 112u8, 114u8, 111u8, 99u8, 101u8, 101u8, 100u8, 62u8]  // </proceed>
    } else
    if k == 16 {
        seq![60u8, 47u8, 102u8, 97u8, 105u8, 108u8, 101u8, 100u8, 62u8]  // </failed>
    } else
    if k == 17 {
        seq![60u8, 47u8, 101u8, 110u8, 97u8, 98u8, 108u8, 101u8, 100u8, 62u8]  // </enabled>
    } else
    if k == 18 {
        seq![60u8, 47u8, 114u8, 101u8, 115u8, 117u8, 109u8, 101u8, 100u8, 62u8]  // </resumed>
    } else
    if k == 19 {
        seq![60u8, 47u8, 101u8, 110u8, 97u8, 98u8, 108u8, 101u8, 62u8]  // </enable>
    } else
    if k == 20 {
        seq![60u8, 47u8, 114u8, 101u8, 115u8, 117u8, 109u8, 101u8, 62u8]  // </resume>
    } else
    if k == 21 {
        seq![60u8, 47u8, 98u8, 105u8, 110u8, 100u8, 62u8]  // </bind>
    } else
    if k == 22 {
        seq![60u8, 47u8, 115u8, 101u8, 115u8, 115u8, 105u8, 111u8, 110u8, 62u8]  // </session>
    } else
    if k == 23 {
        seq![60u8, 47u8, 104u8, 97u8, 110u8, 100u8, 115u8, 104u8, 97u8, 107u8, 101u8, 62u8]  // </handshake>
    } else
    if k == 24 {
        seq![60u8, 47u8, 98u8, 111u8, 100u8, 121u8, 62u8]  // </body>
    } else
    if k == 25 {
        seq![60u8, 47u8, 111u8, 112u8, 101u8, 110u8, 62u8]  // </open>
    } else
    if k == 26 {
        seq![60u8, 47u8, 99u8, 108u8, 111u8, 115u8, 101u8, 62u8]  // </close>
    } else
    {
        seq![]
    }
}

/// Number of self-closing root element names.
pub open spec fn sc_name_count() -> int {
    8
}

/// The `j`-th self-closing root element name, as its byte sequence.
pub open spec fn sc_name(j: int) -> Seq<u8> {
    if j == 0 {
        seq![114u8]  // r
    } else
    if j == 1 {
        seq![97u8]  // a
    } else
    if j == 2 {
        seq![101u8, 110u8, 97u8, 98u8, 108u8, 101u8, 100u8]  // enabled
    } else
    if j == 3 {
        seq![102u8, 97u8, 105u8, 108u8, 101u8, 100u8]  // failed
    } else
    if j == 4 {
        seq![114u8, 101u8, 115u8, 117u8, 109u8, 101u8, 100u8]  // resumed
    } else
    if j == 5 {
        seq![101u8, 110u8, 97u8, 98u8, 108u8, 101u8]  // enable
    } else
    if j == 6 {
        seq![114u8, 101u8, 115u8, 117u8, 109u8, 101u8]  // resume
    } else
    if j == 7 {
        seq![112u8, 114u8, 111u8, 99u8, 101u8, 101u8, 100u8]  // proceed
    } else
    {
        seq![]
    }
}

/// `<name ` — a self-closing root element opened with attributes.
pub open spec fn sc_open_space(j: int) -> Seq<u8> {
    seq![60u8] + sc_name(j) + seq![32u8]
}

/// `<name>` — a self-closing root element opened bare.
pub open spec fn sc_open_plain(j: int) -> Seq<u8> {
    seq![60u8] + sc_name(j) + seq![62u8]
}

/// `/>`
pub open spec fn slash_gt() -> Seq<u8> {
    seq![47u8, 62u8]
}

/// `<?xml`
pub open spec fn xml_decl_open() -> Seq<u8> {
    seq![60u8, 63u8, 120u8, 109u8, 108u8]
}

/// `<stream:stream`
pub open spec fn stream_colon_open() -> Seq<u8> {
    seq![60u8, 115u8, 116u8, 114u8, 101u8, 97u8, 109u8, 58u8, 115u8, 116u8, 114u8, 101u8, 97u8, 109u8]
}

/// `<stream `
pub open spec fn stream_space_open() -> Seq<u8> {
    seq![60u8, 115u8, 116u8, 114u8, 101u8, 97u8, 109u8, 32u8]
}

/// Executable copy of the `k`-th closing tag.
fn close_tag_vec(k: usize) -> (v: Vec<u8>)
    requires
        0 <= k < close_tag_count(),
    ensures
        v@ == close_tag(k as int),
{
    if k == 0 {
        let v: Vec<u8> = vec![60u8, 47u8, 105u8, 113u8, 62u8];  // </iq>
        assert(v@ =~= close_tag(0));
        v
    } else
    if k == 1 {
        let v: Vec<u8> = vec![60u8, 47u8, 109u8, 101u8, 115u8, 115u8, 97u8, 103u8, 101u8, 62u8];  // </message>
        assert(v@ =~= close_tag(1));
        v
    } else
    if k == 2 {
        let v: Vec<u8> = vec![60u8, 47u8, 112u8, 114u8, 101u8, 115u8, 101u8, 110u8, 99u8, 101u8, 62u8];  // </presence>
        assert(v@ =~= close_tag(2));
        v
    } else
    if k == 3 {
        let v: Vec<u8> = vec![60u8, 47u8, 115u8, 116u8, 114u8, 101u8, 97u8, 109u8, 58u8, 102u8, 101u8, 97u8, 116u8, 117u8, 114u8, 101u8, 115u8, 62u8];  // </stream:features>
        assert(v@ =~= close_tag(3));
        v
    } else
    if k == 4 {
        let v: Vec<u8> = vec![60u8, 47u8, 115u8, 116u8, 114u8, 101u8, 97u8, 109u8, 58u8, 115u8, 116u8, 114u8, 101u8, 97u8, 109u8, 62u8];  // </stream:stream>
        assert(v@ =~= close_tag(4));
        v
    } else
    if k == 5 {
        let v: Vec<u8> = vec![60u8, 47u8, 115u8, 116u8, 114u8, 101u8, 97u8, 109u8, 62u8];  // </stream>
        assert(v@ =~= close_tag(5));
        v
    } else
    if k == 6 {
        let v: Vec<u8> = vec![60u8, 47u8, 115u8, 116u8, 114u8, 101u8, 97u8, 109u8, 58u8, 101u8, 114u8, 114u8, 111u8, 114u8, 62u8];  // </stream:error>
        assert(v@ =~= close_tag(6));
        v
    } else
    if k == 7 {
        let v: Vec<u8> = vec![60u8, 47u8, 101u8, 114u8, 114u8, 111u8, 114u8, 62u8];  // </error>
        assert(v@ =~= close_tag(7));
        v
    } else
    if k == 8 {
        let v: Vec<u8> = vec![60u8, 47u8, 99u8, 104u8, 97u8, 108u8, 108u8, 101u8, 110u8, 103u8, 101u8, 62u8];  // </challenge>
        assert(v@ =~= close_tag(8));
        v
    } else
    if k == 9 {
        let v: Vec<u8> = vec![60u8, 47u8, 115u8, 117u8, 99u8, 99u8, 101u8, 115u8, 115u8, 62u8];  // </success>
        assert(v@ =~= close_tag(9));
        v
    } else
    if k == 10 {
        let v: Vec<u8> = vec![60u8, 47u8, 102u8, 97u8, 105u8, 108u8, 117u8, 114u8, 101u8, 62u8];  // </failure>
        assert(v@ =~= close_tag(10));
        v
    } else
    if k == 11 {
        let v: Vec<u8> = vec![60u8, 47u8, 97u8, 117u8, 116u8, 104u8, 62u8];  // </auth>
        assert(v@ =~= close_tag(11));
        v
    } else
    if k == 12 {
        let v: Vec<u8> = vec![60u8, 47u8, 114u8, 101u8, 115u8, 112u8, 111u8, 110u8, 115u8, 101u8, 62u8];  // </response>
        assert(v@ =~= close_tag(12));
        v
    } else
    if k == 13 {
        let v: Vec<u8> = vec![60u8, 47u8, 97u8, 98u8, 111u8, 114u8, 116u8, 62u8];  // </abort>
        assert(v@ =~= close_tag(13));
        v
    } else
    if k == 14 {
        let v: Vec<u8> = vec![60u8, 47u8, 115u8, 116u8, 97u8, 114u8, 116u8, 116u8, 108u8, 115u8, 62u8];  // </starttls>
        assert(v@ =~= close_tag(14));
        v
    } else
    if k == 15 {
        let v: Vec<u8> = vec![60u8, 47u8, 112u8, 114u8, 111u8, 99u8, 101u8, 101u8, 100u8, 62u8];  // </proceed>
        assert(v@ =~= close_tag(15));
        v
    } else
    if k == 16 {
        let v: Vec<u8> = vec![60u8, 47u8, 102u8, 97u8, 105u8, 108u8, 101u8, 100u8, 62u8];  // </failed>
        assert(v@ =~= close_tag(16));
        v
    } else
    if k == 17 {
        let v: Vec<u8> = vec![60u8, 47u8, 101u8, 110u8, 97u8, 98u8, 108u8, 101u8, 100u8, 62u8];  // </enabled>
        assert(v@ =~= close_tag(17));
        v
    } else
    if k == 18 {
        let v: Vec<u8> = vec![60u8, 47u8, 114u8, 101u8, 115u8, 117u8, 109u8, 101u8, 100u8, 62u8];  // </resumed>
        assert(v@ =~= close_tag(18));
        v
    } else
    if k == 19 {
        let v: Vec<u8> = vec![60u8, 47u8, 101u8, 110u8, 97u8, 98u8, 108u8, 101u8, 62u8];  // </enable>
        assert(v@ =~= close_tag(19));
        v
    } else
    if k == 20 {
        let v: Vec<u8> = vec![60u8, 47u8, 114u8, 101u8, 115u8, 117u8, 109u8, 101u8, 62u8];  // </resume>
        assert(v@ =~= close_tag(20));
        v
    } else
    if k == 21 {
        let v: Vec<u8> = vec![60u8, 47u8, 98u8, 105u8, 110u8, 100u8, 62u8];  // </bind>
        assert(v@ =~= close_tag(21));
        v
    } else
    if k == 22 {
        let v: Vec<u8> = vec![60u8, 47u8, 115u8, 101u8, 115u8, 115u8, 105u8, 111u8, 110u8, 62u8];  // </session>
        assert(v@ =~= close_tag(22));
        v
    } else
    if k == 23 {
        let v: Vec<u8> = vec![60u8, 47u8, 104u8, 97u8, 110u8, 100u8, 115u8, 104u8, 97u8, 107u8, 101u8, 62u8];  // </handshake>
        assert(v@ =~= close_tag(23));
        v
    } else
    if k == 24 {
        let v: Vec<u8> = vec![60u8, 47u8, 98u8, 111u8, 100u8, 121u8, 62u8];  // </body>
        assert(v@ =~= close_tag(24));
        v
    } else
    if k == 25 {
        let v: Vec<u8> = vec![60u8, 47u8, 111u8, 112u8, 101u8, 110u8, 62u8];  // </open>
        assert(v@ =~= close_tag(25));
        v
    } else
    if k == 26 {
        let v: Vec<u8> = vec![60u8, 47u8, 99u8, 108u8, 111u8, 115u8, 101u8, 62u8];  // </close>
        assert(v@ =~= close_tag(26));
        v
    } else
    {
        assert(false);
        Vec::new()
    }
}

/// Executable copy of the `j`-th self-closing root element name.
fn sc_name_vec(j: usize) -> (v: Vec<u8>)
    requires
        0 <= j < sc_name_count(),
    ensures
        v@ == sc_name(j as int),
{
    if j == 0 {
        let v: Vec<u8> = vec![114u8];  // r
        assert(v@ =~= sc_name(0));
        v
    } else
    if j == 1 {
        let v: Vec<u8> = vec![97u8];  // a
        assert(v@ =~= sc_name(1));
        v
    } else
    if j == 2 {
        let v: Vec<u8> = vec![101u8, 110u8, 97u8, 98u8, 108u8, 101u8, 100u8];  // enabled
        assert(v@ =~= sc_name(2));
        v
    } else
    if j == 3 {
        let v: Vec<u8> = vec![102u8, 97u8, 105u8, 108u8, 101u8, 100u8];  // failed
        assert(v@ =~= sc_name(3));
        v
    } else
    if j == 4 {
        let v: Vec<u8> = vec![114u8, 101u8, 115u8, 117u8, 109u8, 101u8, 100u8];  // resumed
        assert(v@ =~= sc_name(4));
        v
    } else
    if j == 5 {
        let v: Vec<u8> = vec![101u8, 110u8, 97u8, 98u8, 108u8, 101u8];  // enable
        assert(v@ =~= sc_name(5));
        v
    } else
    if j == 6 {
        let v: Vec<u8> = vec![114u8, 101u8, 115u8, 117u8, 109u8, 101u8];  // resume
        assert(v@ =~= sc_name(6));
        v
    } else
    if j == 7 {
        let v: Vec<u8> = vec![112u8, 114u8, 111u8, 99u8, 101u8, 101u8, 100u8];  // proceed
        assert(v@ =~= sc_name(7));
        v
    } else
    {
        assert(false);
        Vec::new()
    }
}

/// Every closing tag ends in `>` and is at least four bytes long.
pub proof fn lemma_close_tag_shape(k: int)
    requires
        0 <= k < close_tag_count(),
    ensures
        close_tag(k).len() >= 4,
        close_tag(k)[close_tag(k).len() - 1] == 62u8,
{
}


// ---------------------------------------------------------------------------
// Boundary selection: the earliest ending candidate wins.
// ---------------------------------------------------------------------------

/// The end offset of a match found at `o`, for a pattern of length `len`.
pub open spec fn end_of(o: Option<int>, len: int) -> Option<int> {
    match o {
        Some(i) => Some(i + len),
        None => None,
    }
}

/// Of two candidate end offsets, the earlier one; a later candidate replaces
/// an earlier-scanned one only when it ends strictly sooner.
pub open spec fn earlier_end(a: Option<int>, b: Option<int>) -> Option<int> {
    match b {
        None => a,
        Some(y) => match a {
            None => b,
            Some(x) => if y < x {
                b
            } else {
                a
            },
        },
    }
}

/// End offset of the leftmost occurrence of the `k`-th closing tag.
pub open spec fn close_end(s: Seq<u8>, k: int) -> Option<int> {
    end_of(find_pat(s, close_tag(k), 0), close_tag(k).len() as int)
}

/// Earliest end offset among the first `k` closing tags.
pub open spec fn best_close_upto(s: Seq<u8>, k: int) -> Option<int>
    decreases k,
{
    if k <= 0 {
        None
    } else {
        earlier_end(best_close_upto(s, k - 1), close_end(s, k - 1))
    }
}

/// Where the `j`-th self-closing root element opens: the leftmost `<name `
/// if there is one, otherwise the leftmost `<name>`.
pub open spec fn sc_start(s: Seq<u8>, j: int) -> Option<int> {
    if find_pat(s, sc_open_space(j), 0) is Some {
        find_pat(s, sc_open_space(j), 0)
    } else {
        find_pat(s, sc_open_plain(j), 0)
    }
}

/// End offset of the `j`-th self-closing root element: the end of the first
/// `/>` after the opening.
pub open spec fn sc_end(s: Seq<u8>, j: int) -> Option<int> {
    match sc_start(s, j) {
        None => None,
        Some(st) => end_of(find_pat(s, slash_gt(), st + sc_name(j).len() + 2), 2),
    }
}

/// Earliest end offset among the first `j` self-closing root elements.
pub open spec fn best_sc_upto(s: Seq<u8>, j: int) -> Option<int>
    decreases j,
{
    if j <= 0 {
        None
    } else {
        earlier_end(best_sc_upto(s, j - 1), sc_end(s, j - 1))
    }
}

/// The earliest fragment boundary in `s`: the candidate among all closing
/// tags and self-closing root elements that ends first.
pub open spec fn best_boundary_end(s: Seq<u8>) -> Option<int> {
    earlier_end(best_close_upto(s, close_tag_count()), best_sc_upto(s, sc_name_count()))
}

pub proof fn lemma_best_close_shape(s: Seq<u8>, k: int)
    requires
        0 <= k <= close_tag_count(),
        best_close_upto(s, k) is Some,
    ensures
        ({
            let e = best_close_upto(s, k)->Some_0;
            1 <= e <= s.len() && s[e - 1] == 62u8
        }),
    decreases k,
{
    if k > 0 {
        let prev = best_close_upto(s, k - 1);
        let cand = close_end(s, k - 1);
        if prev is Some {
            lemma_best_close_shape(s, k - 1);
        }
        if cand is Some {
            lemma_find_pat_some(s, close_tag(k - 1), 0);
            lemma_close_tag_shape(k - 1);
            let i = find_pat(s, close_tag(k - 1), 0)->Some_0;
            let len = close_tag(k - 1).len() as int;
            assert(s.subrange(i, i + len)[len - 1] == close_tag(k - 1)[len - 1]);
            assert(s[i + len - 1] == 62u8);
        }
    }
}

pub proof fn lemma_sc_end_shape(s: Seq<u8>, j: int)
    requires
        0 <= j < sc_name_count(),
        sc_end(s, j) is Some,
    ensures
        ({
            let e = sc_end(s, j)->Some_0;
            1 <= e <= s.len() && s[e - 1] == 62u8
        }),
{
    let st = sc_start(s, j)->Some_0;
    let from = st + sc_name(j).len() + 2;
    if find_pat(s, sc_open_space(j), 0) is Some {
        lemma_find_pat_some(s, sc_open_space(j), 0);
    } else {
        lemma_find_pat_some(s, sc_open_plain(j), 0);
    }
    lemma_find_pat_some(s, slash_gt(), from);
    let r = find_pat(s, slash_gt(), from)->Some_0;
    assert(s.subrange(r, r + 2)[1] == slash_gt()[1]);
    assert(s[r + 1] == 62u8);
}

pub proof fn lemma_best_sc_shape(s: Seq<u8>, j: int)
    requires
        0 <= j <= sc_name_count(),
        best_sc_upto(s, j) is Some,
    ensures
        ({
            let e = best_sc_upto(s, j)->Some_0;
            1 <= e <= s.len() && s[e - 1] == 62u8
        }),
    decreases j,
{
    if j > 0 {
        if best_sc_upto(s, j - 1) is Some {
            lemma_best_sc_shape(s, j - 1);
        }
        if sc_end(s, j - 1) is Some {
            lemma_sc_end_shape(s, j - 1);
        }
    }
}

pub proof fn lemma_best_boundary_shape(s: Seq<u8>)
    requires
        best_boundary_end(s) is Some,
    ensures
        ({
            let e = best_boundary_end(s)->Some_0;
            1 <= e <= s.len() && s[e - 1] == 62u8
        }),
{
    if best_close_upto(s, close_tag_count()) is Some {
        lemma_best_close_shape(s, close_tag_count());
    }
    if best_sc_upto(s, sc_name_count()) is Some {
        lemma_best_sc_shape(s, sc_name_count());
    }
}

/// The earlier of two executable candidate end offsets.
fn earlier_end_exec(a: Option<usize>, b: Option<usize>) -> (r: Option<usize>)
    ensures
        forall|sa: Option<int>, sb: Option<int>|
            same_index(a, sa) && same_index(b, sb) ==> same_index(r, earlier_end(sa, sb)),
{
    match b {
        None => a,
        Some(y) => match a {
            None => Some(y),
            Some(x) => if y < x {
                Some(y)
            } else {
                Some(x)
            },
        },
    }
}

/// Scan for the earliest closing-tag boundary.
fn scan_close(s: &[u8]) -> (r: Option<usize>)
    ensures
        same_index(r, best_close_upto(s@, close_tag_count())),
{
    let n: usize = s.len();
    let mut best: Option<usize> = None;
    let mut k: usize = 0;
    while k < 27
        invariant
            k <= 27,
            n == s@.len(),
            same_index(best, best_close_upto(s@, k as int)),
        decreases 27 - k,
    {
        let tag = close_tag_vec(k);
        proof {
            lemma_close_tag_shape(k as int);
        }
        let cand: Option<usize> = match find_sub(s, tag.as_slice(), 0) {
            Some(i) => {
                proof {
                    lemma_find_pat_some(s@, close_tag(k as int), 0);
                }
                assert(i + tag@.len() <= s@.len());
                Some(i + tag.len())
            },
            None => None,
        };
        assert(same_index(cand, close_end(s@, k as int)));
        best = earlier_end_exec(best, cand);
        k = k + 1;
    }
    best
}

/// Scan for the earliest self-closing root element boundary.
fn scan_self_closing(s: &[u8]) -> (r: Option<usize>)
    ensures
        same_index(r, best_sc_upto(s@, sc_name_count())),
{
    let n: usize = s.len();
    let mut best: Option<usize> = None;
    let mut j: usize = 0;
    while j < 8
        invariant
            j <= 8,
            n == s@.len(),
            same_index(best, best_sc_upto(s@, j as int)),
        decreases 8 - j,
    {
        let name = sc_name_vec(j);
        let open_space = concat_byte_name_byte(60u8, &name, 32u8);
        let open_plain = concat_byte_name_byte(60u8, &name, 62u8);
        assert(open_space@ =~= sc_open_space(j as int));
        assert(open_plain@ =~= sc_open_plain(j as int));
        let start: Option<usize> = match find_sub(s, open_space.as_slice(), 0) {
            Some(i) => Some(i),
            None => find_sub(s, open_plain.as_slice(), 0),
        };
        assert(same_index(start, sc_start(s@, j as int)));
        let cand: Option<usize> = match start {
            Some(st) => {
                proof {
                    lemma_find_pat_some(s@, if find_pat(s@, sc_open_space(j as int), 0) is Some {
                        sc_open_space(j as int)
                    } else {
                        sc_open_plain(j as int)
                    }, 0);
                }
                assert(st + sc_name(j as int).len() + 2 <= s@.len());
                let after = st + name.len() + 2;
                let sg: Vec<u8> = vec![47u8, 62u8];
                assert(sg@ =~= slash_gt());
                match find_sub(s, sg.as_slice(), after) {
                    Some(rel) => {
                        proof {
                            lemma_find_pat_some(s@, slash_gt(), after as int);
                        }
                        Some(rel + 2)
                    },
                    None => None,
                }
            },
            None => None,
        };
        assert(same_index(cand, sc_end(s@, j as int)));
        best = earlier_end_exec(best, cand);
        j = j + 1;
    }
    best
}

/// `first` then the bytes of `mid` then `last`, as one pattern.
fn concat_byte_name_byte(first: u8, mid: &Vec<u8>, last: u8) -> (v: Vec<u8>)
    requires
        mid@.len() < 100,
    ensures
        v@ == seq![first] + mid@ + seq![last],
{
    let mut v: Vec<u8> = Vec::new();
    v.push(first);
    let mut i: usize = 0;
    while i < mid.len()
        invariant
            i <= mid@.len() < 100,
            v@ =~= seq![first] + mid@.subrange(0, i as int),
        decreases mid@.len() - i,
    {
        v.push(mid[i]);
        assert(v@ =~= seq![first] + mid@.subrange(0, i + 1));
        i = i + 1;
    }
    assert(mid@.subrange(0, mid@.len() as int) =~= mid@);
    v.push(last);
    assert(v@ =~= seq![first] + mid@ + seq![last]);
    v
}


// ---------------------------------------------------------------------------
// Stream header detection: optional leading whitespace and XML declaration,
// then a stream-opening start tag, emitted as soon as its `>` arrives.
// ---------------------------------------------------------------------------

/// ASCII whitespace, as the header skipper recognizes it.
pub open spec fn is_ws_byte(b: u8) -> bool {
    b == 32 || b == 9 || b == 10 || b == 13
}

/// The first index at or after `i` holding a non-whitespace byte (or the end).
pub open spec fn skip_ws(s: Seq<u8>, i: int) -> int
    decreases s.len() - i + 1,
{
    if i < 0 || i >= s.len() {
        s.len() as int
    } else if is_ws_byte(s[i]) {
        skip_ws(s, i + 1)
    } else {
        i
    }
}

/// Where the stream header sits in `s`: the start of the stream-opening tag
/// and the offset just past its closing `>`, if both are present.
pub open spec fn header_scan(s: Seq<u8>) -> Option<(int, int)> {
    let w = skip_ws(s, 0);
    let h = if match_at(s, xml_decl_open(), w) {
        match find_pat(s, seq![62u8], w) {
            Some(g) => skip_ws(s, g + 1),
            None => w,
        }
    } else {
        w
    };
    if match_at(s, stream_colon_open(), h) || match_at(s, stream_space_open(), h) {
        match find_pat(s, seq![62u8], h) {
            Some(g) => Some((h, g + 1)),
            None => None,
        }
    } else {
        None
    }
}

pub proof fn lemma_header_scan_shape(s: Seq<u8>)
    requires
        header_scan(s) is Some,
    ensures
        ({
            let (h, e) = header_scan(s)->Some_0;
            &&& 0 <= h < e <= s.len()
            &&& s[h] == 60u8
            &&& s[e - 1] == 62u8
        }),
{
    let (h, e) = header_scan(s)->Some_0;
    if match_at(s, stream_colon_open(), h) {
        assert(s.subrange(h, h + stream_colon_open().len() as int)[0] == stream_colon_open()[0]);
    } else {
        assert(s.subrange(h, h + stream_space_open().len() as int)[0] == stream_space_open()[0]);
    }
    lemma_find_pat_some(s, seq![62u8], h);
    let g = find_pat(s, seq![62u8], h)->Some_0;
    assert(s.subrange(g, g + 1)[0] == 62u8);
}

/// First non-whitespace position at or after `from`.
fn skip_ws_exec(s: &[u8], from: usize) -> (r: usize)
    requires
        from <= s@.len(),
    ensures
        r as int == skip_ws(s@, from as int),
        from <= r <= s@.len(),
{
    let n: usize = s.len();
    let mut i: usize = from;
    while i < n
        invariant
            from <= i <= n,
            n == s@.len(),
            skip_ws(s@, from as int) == skip_ws(s@, i as int),
        decreases n - i,
    {
        let b = s[i];
        if !(b == 32 || b == 9 || b == 10 || b == 13) {
            return i;
        }
        i = i + 1;
    }
    i
}

// ---------------------------------------------------------------------------
// UTF-8 at the edges. Fragments are only carved from buffers that are valid
// UTF-8, at offsets just past an ASCII `>`, so each fragment is valid too.
// ---------------------------------------------------------------------------

/// Relies on std::str::from_utf8, which accepts exactly the byte sequences
/// that are valid UTF-8.
#[verifier::external_body]
fn utf8_check(v: &[u8]) -> (r: bool)
    ensures
        r == valid_utf8(v@),
{
    core::str::from_utf8(v).is_ok()
}

/// Relies on String::from_utf8: on valid UTF-8 input it returns the string
/// holding exactly those bytes.
#[verifier::external_body]
fn string_from_utf8(v: Vec<u8>) -> (r: String)
    requires
        valid_utf8(v@),
    ensures
        encode_utf8(r@) == v@,
{
    match String::from_utf8(v) {
        Ok(s) => s,
        Err(_) => String::new(),
    }
}

/// In valid UTF-8, the position just after an ASCII byte is a character
/// boundary.
pub proof fn lemma_boundary_after_ascii(s: Seq<u8>, end: int)
    requires
        valid_utf8(s),
        0 < end <= s.len(),
        s[end - 1] < 0x80,
    ensures
        is_char_boundary(s, end),
{
    if end == s.len() {
        is_char_boundary_start_end_of_seq(s);
    } else {
        is_char_boundary_iff_not_is_continuation_byte(s, end - 1);
        valid_utf8_split(s, end - 1);
        let suf = s.subrange(end - 1, s.len() as int);
        assert(valid_utf8(suf));
        assert(suf[0] == s[end - 1]);
        assert(is_leading_byte_width_1(suf[0]));
        assert(length_of_first_scalar(suf) == 1);
        let rest = pop_first_scalar(suf);
        assert(rest =~= s.subrange(end, s.len() as int));
        assert(valid_utf8(rest));
        assert(rest.len() > 0);
        assert(valid_first_scalar(rest));
        assert(!is_continuation_byte(rest[0]));
        assert(rest[0] == s[end]);
        is_char_boundary_iff_not_is_continuation_byte(s, end);
    }
}

/// Bytes `from..to` of `v`, as a fresh vector.
fn copy_range(v: &Vec<u8>, from: usize, to: usize) -> (r: Vec<u8>)
    requires
        from <= to <= v@.len(),
    ensures
        r@ == v@.subrange(from as int, to as int),
{
    let mut r: Vec<u8> = Vec::new();
    let mut i: usize = from;
    while i < to
        invariant
            from <= i <= to <= v@.len(),
            r@ =~= v@.subrange(from as int, i as int),
        decreases to - i,
    {
        r.push(v[i]);
        assert(r@ =~= v@.subrange(from as int, i + 1));
        i = i + 1;
    }
    assert(r@ =~= v@.subrange(from as int, to as int));
    r
}

// ---------------------------------------------------------------------------
// One extraction round, and its closure over a whole buffer.
// ---------------------------------------------------------------------------

/// One framing round on buffer `s` in header mode `hdr`: the fragment carved
/// out, the remaining buffer, and the new header mode — or `None` when the
/// buffer is not yet valid UTF-8 or holds no complete boundary.
pub open spec fn extract_one(s: Seq<u8>, hdr: bool) -> Option<(Seq<u8>, Seq<u8>, bool)> {
    if !valid_utf8(s) {
        None
    } else {
        match best_boundary_end(s) {
            Some(e) => Some((s.subrange(0, e), s.subrange(e, s.len() as int), hdr)),
            None => {
                if hdr {
                    match header_scan(s) {
                        Some((h, e)) => Some((s.subrange(h, e), s.subrange(e, s.len() as int), false)),
                        None => None,
                    }
                } else {
                    None
                }
            },
        }
    }
}

pub proof fn lemma_extract_one_shrinks(s: Seq<u8>, hdr: bool)
    requires
        extract_one(s, hdr) is Some,
    ensures
        extract_one(s, hdr)->Some_0.1.len() < s.len(),
{
    if best_boundary_end(s) is Some {
        lemma_best_boundary_shape(s);
    } else {
        lemma_header_scan_shape(s);
    }
}

/// All fragments extractable from buffer `s` in header mode `hdr`, with the
/// remaining buffer and final header mode.
pub open spec fn extract_all(s: Seq<u8>, hdr: bool) -> (Seq<Seq<u8>>, Seq<u8>, bool)
    decreases s.len(),
{
    match extract_one(s, hdr) {
        None => (Seq::<Seq<u8>>::empty(), s, hdr),
        Some((f, rest, h2)) => {
            if rest.len() < s.len() {
                let (fs, r, hh) = extract_all(rest, h2);
                (seq![f] + fs, r, hh)
            } else {
                (Seq::<Seq<u8>>::empty(), s, hdr)
            }
        },
    }
}

// ---------------------------------------------------------------------------
// The framer.
// ---------------------------------------------------------------------------


/// The byte sequences that a list of fragment strings encodes to.
pub open spec fn frags_bytes(frags: Seq<String>) -> Seq<Seq<u8>> {
    frags.map_values(|st: String| encode_utf8(st@))
}

/// Framing errors surfaced to callers.
#[derive(Debug)]
pub enum StanzaError {
    /// No complete stanza is available yet.
    Incomplete,
    /// The buffered bytes could not be interpreted.
    Parse(String),
}

/// Buffers incoming bytes and splits them on stanza boundaries: known closing
/// tags and self-closing root elements, plus the initial stream header.
pub struct StreamFramer {
    buffer: Vec<u8>,
    in_stream_header: bool,
}

impl StreamFramer {
    /// The bytes pushed but not yet attributed to an emitted fragment.
    pub closed spec fn buf(&self) -> Seq<u8> {
        self.buffer@
    }

    /// Whether the framer is still awaiting the stream-opening header.
    pub closed spec fn header_mode(&self) -> bool {
        self.in_stream_header
    }

    pub fn new() -> (r: Self)
        ensures
            r.buf() == Seq::<u8>::empty(),
            r.header_mode(),
    {
        StreamFramer { buffer: Vec::new(), in_stream_header: true }
    }

    /// Forget all buffered bytes and await a fresh stream header.
    pub fn reset(&mut self)
        ensures
            final(self).buf() == Seq::<u8>::empty(),
            final(self).header_mode(),
    {
        self.buffer.clear();
        self.in_stream_header = true;
    }

    /// Extract one fragment, if a complete one is buffered.
    fn take_next_stanza(&mut self) -> (r: Option<String>)
        ensures
            match extract_one(old(self).buf(), old(self).header_mode()) {
                Some((f, rest, h2)) => {
                    &&& r matches Some(st) && encode_utf8(st@) == f
                    &&& final(self).buf() == rest
                    &&& final(self).header_mode() == h2
                    &&& final(self).buf().len() < old(self).buf().len()
                },
                None => {
                    &&& r is None
                    &&& final(self).buf() == old(self).buf()
                    &&& final(self).header_mode() == old(self).header_mode()
                },
            },
    {
        let ghost s = self.buffer@;
        let n: usize = self.buffer.len();
        if !utf8_check(self.buffer.as_slice()) {
            return None;
        }
        let a = scan_close(self.buffer.as_slice());
        let b = scan_self_closing(self.buffer.as_slice());
        let best = earlier_end_exec(a, b);
        assert(same_index(best, best_boundary_end(s)));
        match best {
            Some(e) => {
                proof {
                    lemma_best_boundary_shape(s);
                    lemma_boundary_after_ascii(s, e as int);
                    valid_utf8_split(s, e as int);
                }
                let frag = copy_range(&self.buffer, 0, e);
                let rest = copy_range(&self.buffer, e, n);
                self.buffer = rest;
                let st = string_from_utf8(frag);
                Some(st)
            },
            None => {
                if !self.in_stream_header {
                    return None;
                }
                let w = skip_ws_exec(self.buffer.as_slice(), 0);
                let decl: Vec<u8> = vec![60u8, 63u8, 120u8, 109u8, 108u8];
                assert(decl@ =~= xml_decl_open());
                let gt: Vec<u8> = vec![62u8];
                assert(gt@ =~= seq![62u8]);
                let h: usize;
                if n >= 5 && w <= n - 5 && eq_at(self.buffer.as_slice(), decl.as_slice(), w) {
                    match find_sub(self.buffer.as_slice(), gt.as_slice(), w) {
                        Some(g) => {
                            proof {
                                lemma_find_pat_some(s, seq![62u8], w as int);
                            }
                            h = skip_ws_exec(self.buffer.as_slice(), g + 1);
                        },
                        None => {
                            h = w;
                        },
                    }
                } else {
                    h = w;
                }
                let colon: Vec<u8> = vec![
                    60u8, 115u8, 116u8, 114u8, 101u8, 97u8, 109u8, 58u8, 115u8, 116u8, 114u8,
                    101u8, 97u8, 109u8,
                ];
                assert(colon@ =~= stream_colon_open());
                let space: Vec<u8> = vec![60u8, 115u8, 116u8, 114u8, 101u8, 97u8, 109u8, 32u8];
                assert(space@ =~= stream_space_open());
                let is_hdr = (n >= 14 && h <= n - 14 && eq_at(
                    self.buffer.as_slice(),
                    colon.as_slice(),
                    h,
                )) || (n >= 8 && h <= n - 8 && eq_at(self.buffer.as_slice(), space.as_slice(), h));
                if !is_hdr {
                    assert(header_scan(s) is None);
                    return None;
                }
                match find_sub(self.buffer.as_slice(), gt.as_slice(), h) {
                    Some(g) => {
                        assert(header_scan(s) == Some((h as int, g + 1 as int)));
                        proof {
                            lemma_header_scan_shape(s);
                            lemma_boundary_after_ascii(s, g + 1 as int);
                            valid_utf8_split(s, g + 1 as int);
                            let p = s.subrange(0, g + 1 as int);
                            assert(p[h as int] == s[h as int]);
                            assert(!is_continuation_byte(p[h as int]));
                            is_char_boundary_iff_not_is_continuation_byte(p, h as int);
                            valid_utf8_split(p, h as int);
                            assert(p.subrange(h as int, g + 1 as int) =~= s.subrange(
                                h as int,
                                g + 1 as int,
                            ));
                        }
                        let frag = copy_range(&self.buffer, h, g + 1);
                        let rest = copy_range(&self.buffer, g + 1, n);
                        self.buffer = rest;
                        self.in_stream_header = false;
                        let st = string_from_utf8(frag);
                        Some(st)
                    },
                    None => {
                        assert(header_scan(s) is None);
                        None
                    },
                }
            },
        }
    }

    /// Push bytes; returns every fragment completed by them, in order.
    ///
    /// The returned strings, re-encoded as UTF-8, are exactly the fragments
    /// that repeated extraction takes off the front of the grown buffer, and
    /// the buffer afterwards holds exactly what extraction left behind.
    pub fn push(&mut self, data: &[u8]) -> (r: Result<Vec<String>, StanzaError>)
        ensures
            ({
                let all = extract_all(old(self).buf() + data@, old(self).header_mode());
                &&& r matches Ok(frags) && frags_bytes(frags@) =~= all.0
                &&& final(self).buf() == all.1
                &&& final(self).header_mode() == all.2
            }),
    {
        self.buffer.extend_from_slice(data);
        assert(self.buffer@ =~= old(self).buf() + data@);
        let ghost start_buf = self.buffer@;
        let ghost start_hdr = self.in_stream_header;
        let ghost target = extract_all(start_buf, start_hdr);
        let mut out: Vec<String> = Vec::new();
        loop
            invariant
                target.0 =~= frags_bytes(out@) + extract_all(self.buf(), self.header_mode()).0,
                target.1 == extract_all(self.buf(), self.header_mode()).1,
                target.2 == extract_all(self.buf(), self.header_mode()).2,
            ensures
                extract_all(self.buf(), self.header_mode()).0 =~= Seq::<Seq<u8>>::empty(),
                extract_all(self.buf(), self.header_mode()).1 == self.buf(),
                extract_all(self.buf(), self.header_mode()).2 == self.header_mode(),
            decreases self.buf().len(),
        {
            let ghost cur = self.buf();
            let ghost cur_hdr = self.header_mode();
            match self.take_next_stanza() {
                Some(st) => {
                    proof {
                        let (f, rest, h2) = extract_one(cur, cur_hdr)->Some_0;
                        assert(extract_all(cur, cur_hdr).0 =~= seq![f] + extract_all(rest, h2).0);
                        assert(frags_bytes(out@.push(st)) =~= frags_bytes(out@).push(
                            encode_utf8(st@),
                        ));
                    }
                    out.push(st);
                },
                None => {
                    proof {
                        assert(extract_all(cur, cur_hdr).0 =~= Seq::<Seq<u8>>::empty());
                        assert(extract_all(cur, cur_hdr).1 == cur);
                        assert(frags_bytes(out@) + Seq::<Seq<u8>>::empty() =~= frags_bytes(
                            out@,
                        ));
                    }
                    break;
                },
            }
        }
        Ok(out)
    }
}

impl Default for StreamFramer {
    fn default() -> (r: Self)
        ensures
            r.buf() == Seq::<u8>::empty(),
            r.header_mode(),
    {
        StreamFramer::new()
    }
}

// ---------------------------------------------------------------------------
// Conservation law.
// ---------------------------------------------------------------------------

/// The fragments of an extraction, concatenated in order.
pub open spec fn concat_frags(fs: Seq<Seq<u8>>) -> Seq<u8>
    decreases fs.len(),
{
    if fs.len() == 0 {
        Seq::<u8>::empty()
    } else {
        fs[0] + concat_frags(fs.subrange(1, fs.len() as int))
    }
}

/// Header-mode law: once the stream header has been emitted, no amount of
/// further input brings the framer back into header mode.
pub proof fn lemma_header_mode_permanent(s: Seq<u8>)
    ensures
        extract_all(s, false).2 == false,
    decreases s.len(),
{
    match extract_one(s, false) {
        None => {},
        Some((f, rest, h2)) => {
            lemma_extract_one_shrinks(s, false);
            lemma_header_mode_permanent(rest);
        },
    }
}

/// Conservation law of the framer, past the stream header: every byte of the
/// buffer is either emitted in a fragment or retained — the concatenation of
/// all extracted fragments followed by the remaining buffer is exactly the
/// buffer itself. (While the stream header is still awaited, the whitespace
/// and XML declaration in front of the header are consumed without being
/// emitted, so the law is stated for framers past their header.)
pub proof fn lemma_framer_conservation(s: Seq<u8>)
    ensures
        concat_frags(extract_all(s, false).0) + extract_all(s, false).1 =~= s,
    decreases s.len(),
{
    match extract_one(s, false) {
        None => {
            assert(extract_all(s, false).0 =~= Seq::<Seq<u8>>::empty());
            assert(concat_frags(Seq::<Seq<u8>>::empty()) + s =~= s);
        },
        Some((f, rest, h2)) => {
            lemma_extract_one_shrinks(s, false);
            assert(h2 == false);
            lemma_framer_conservation(rest);
            let fs = extract_all(rest, false).0;
            assert(extract_all(s, false).0 =~= seq![f] + fs);
            assert((seq![f] + fs).subrange(1, (seq![f] + fs).len() as int) =~= fs);
            assert(concat_frags(seq![f] + fs) =~= f + concat_frags(fs));
            let e = best_boundary_end(s)->Some_0;
            lemma_best_boundary_shape(s);
            assert(f + rest =~= s);
            assert(f + (concat_frags(fs) + extract_all(rest, false).1) =~= s);
        },
    }
}


// ---------------------------------------------------------------------------
// Split-invariance. Fragment boundaries do not depend on how the input was
// split across pushes, with three provisos that each name a real failure
// mode of the heuristic: the framer must be past its stream header (header
// consumption depends on what has arrived), each chunk must be valid UTF-8
// on its own (an invalid tail delays extraction), and no space-form opener
// `<name ` of a self-closing root may occur (a later `<name ` takes
// precedence over an earlier `<name>`, moving the boundary).
// ---------------------------------------------------------------------------

/// No space-form opener of any self-closing root element occurs in `s`.
pub open spec fn no_space_openers(s: Seq<u8>) -> bool {
    forall|j: int| 0 <= j < sc_name_count() ==> find_pat(s, #[trigger] sc_open_space(j), 0) is None
}

pub proof fn lemma_find_pat_none(s: Seq<u8>, pat: Seq<u8>, from: int, j: int)
    requires
        find_pat(s, pat, from) is None,
        0 <= from <= j,
    ensures
        !match_at(s, pat, j),
    decreases s.len() - from + 1,
{
    if from + pat.len() > s.len() {
    } else if j > from {
        lemma_find_pat_none(s, pat, from + 1, j);
    }
}

proof fn lemma_find_pat_char(s: Seq<u8>, pat: Seq<u8>, from: int, i: int)
    requires
        0 <= from <= i,
        match_at(s, pat, i),
        forall|j: int| from <= j < i ==> !match_at(s, pat, j),
    ensures
        find_pat(s, pat, from) == Some(i),
    decreases i - from,
{
    if from < i {
        lemma_find_pat_char(s, pat, from + 1, i);
    }
}

/// A match that fits inside the first part of a concatenation is a match of
/// the first part, and the other way round.
proof fn lemma_match_at_concat(s1: Seq<u8>, s2: Seq<u8>, pat: Seq<u8>, i: int)
    requires
        0 <= i,
        i + pat.len() <= s1.len(),
    ensures
        match_at(s1, pat, i) == match_at(s1 + s2, pat, i),
{
    assert((s1 + s2).subrange(i, i + pat.len() as int) =~= s1.subrange(i, i + pat.len() as int));
}

/// A leftmost match found in the first part stays the leftmost match of the
/// concatenation.
proof fn lemma_find_concat_some(s1: Seq<u8>, s2: Seq<u8>, pat: Seq<u8>, from: int)
    requires
        0 <= from,
        find_pat(s1, pat, from) is Some,
    ensures
        find_pat(s1 + s2, pat, from) == find_pat(s1, pat, from),
{
    let i = find_pat(s1, pat, from)->Some_0;
    lemma_find_pat_some(s1, pat, from);
    lemma_match_at_concat(s1, s2, pat, i);
    assert forall|j: int| from <= j < i implies !match_at(s1 + s2, pat, j) by {
        lemma_match_at_concat(s1, s2, pat, j);
    }
    lemma_find_pat_char(s1 + s2, pat, from, i);
}

/// When the first part holds no match, any match of the concatenation
/// reaches past the first part.
proof fn lemma_find_concat_late(s1: Seq<u8>, s2: Seq<u8>, pat: Seq<u8>, from: int)
    requires
        0 <= from,
        find_pat(s1, pat, from) is None,
        find_pat(s1 + s2, pat, from) is Some,
    ensures
        find_pat(s1 + s2, pat, from)->Some_0 + pat.len() > s1.len(),
{
    let i = find_pat(s1 + s2, pat, from)->Some_0;
    lemma_find_pat_some(s1 + s2, pat, from);
    if i + pat.len() <= s1.len() {
        lemma_match_at_concat(s1, s2, pat, i);
        lemma_find_pat_none(s1, pat, from, i);
    }
}

proof fn lemma_close_end_concat(s1: Seq<u8>, s2: Seq<u8>, k: int)
    requires
        0 <= k < close_tag_count(),
    ensures
        close_end(s1, k) matches Some(e) ==> close_end(s1 + s2, k) == Some(e),
        close_end(s1, k) is None ==> (close_end(s1 + s2, k) matches Some(e) ==> e > s1.len()),
{
    match find_pat(s1, close_tag(k), 0) {
        Some(_) => {
            lemma_find_concat_some(s1, s2, close_tag(k), 0);
        },
        None => {
            if find_pat(s1 + s2, close_tag(k), 0) is Some {
                lemma_find_concat_late(s1, s2, close_tag(k), 0);
            }
        },
    }
}

proof fn lemma_sc_end_concat(s1: Seq<u8>, s2: Seq<u8>, j: int)
    requires
        0 <= j < sc_name_count(),
        no_space_openers(s1 + s2),
    ensures
        sc_end(s1, j) matches Some(e) ==> sc_end(s1 + s2, j) == Some(e),
        sc_end(s1, j) is None ==> (sc_end(s1 + s2, j) matches Some(e) ==> e > s1.len()),
{
    // The space form is absent from the concatenation, hence from its prefix.
    if find_pat(s1, sc_open_space(j), 0) is Some {
        lemma_find_concat_some(s1, s2, sc_open_space(j), 0);
    }
    assert(find_pat(s1, sc_open_space(j), 0) is None);
    match find_pat(s1, sc_open_plain(j), 0) {
        Some(st) => {
            lemma_find_concat_some(s1, s2, sc_open_plain(j), 0);
            let from = st + sc_name(j).len() + 2;
            lemma_find_pat_some(s1, sc_open_plain(j), 0);
            assert(from >= 0);
            match find_pat(s1, slash_gt(), from) {
                Some(_) => {
                    lemma_find_concat_some(s1, s2, slash_gt(), from);
                },
                None => {
                    if find_pat(s1 + s2, slash_gt(), from) is Some {
                        lemma_find_concat_late(s1, s2, slash_gt(), from);
                    }
                },
            }
        },
        None => {
            if find_pat(s1 + s2, sc_open_plain(j), 0) is Some {
                lemma_find_concat_late(s1, s2, sc_open_plain(j), 0);
                let st = find_pat(s1 + s2, sc_open_plain(j), 0)->Some_0;
                let from = st + sc_name(j).len() + 2;
                lemma_find_pat_some(s1 + s2, sc_open_plain(j), 0);
                if find_pat(s1 + s2, slash_gt(), from) is Some {
                    lemma_find_pat_some(s1 + s2, slash_gt(), from);
                }
            }
        },
    }
}

proof fn lemma_best_close_concat(s1: Seq<u8>, s2: Seq<u8>, k: int)
    requires
        0 <= k <= close_tag_count(),
    ensures
        best_close_upto(s1, k) matches Some(e) ==> best_close_upto(s1 + s2, k) == Some(e),
        best_close_upto(s1, k) is None ==> (best_close_upto(s1 + s2, k) matches Some(e) ==> e
            > s1.len()),
    decreases k,
{
    if k > 0 {
        lemma_best_close_concat(s1, s2, k - 1);
        lemma_close_end_concat(s1, s2, k - 1);
        if best_close_upto(s1, k - 1) is Some {
            lemma_best_close_shape(s1, k - 1);
        }
        if close_end(s1, k - 1) is Some {
            lemma_find_pat_some(s1, close_tag(k - 1), 0);
        }
    }
}

proof fn lemma_best_sc_concat(s1: Seq<u8>, s2: Seq<u8>, j: int)
    requires
        0 <= j <= sc_name_count(),
        no_space_openers(s1 + s2),
    ensures
        best_sc_upto(s1, j) matches Some(e) ==> best_sc_upto(s1 + s2, j) == Some(e),
        best_sc_upto(s1, j) is None ==> (best_sc_upto(s1 + s2, j) matches Some(e) ==> e
            > s1.len()),
    decreases j,
{
    if j > 0 {
        lemma_best_sc_concat(s1, s2, j - 1);
        lemma_sc_end_concat(s1, s2, j - 1);
        if best_sc_upto(s1, j - 1) is Some {
            lemma_best_sc_shape(s1, j - 1);
        }
        if sc_end(s1, j - 1) is Some {
            lemma_sc_end_shape(s1, j - 1);
        }
    }
}

/// A boundary found in the first part of a concatenation is the boundary of
/// the concatenation.
proof fn lemma_best_boundary_concat(s1: Seq<u8>, s2: Seq<u8>)
    requires
        no_space_openers(s1 + s2),
        best_boundary_end(s1) is Some,
    ensures
        best_boundary_end(s1 + s2) == best_boundary_end(s1),
{
    lemma_best_close_concat(s1, s2, close_tag_count());
    lemma_best_sc_concat(s1, s2, sc_name_count());
    if best_close_upto(s1, close_tag_count()) is Some {
        lemma_best_close_shape(s1, close_tag_count());
    }
    if best_sc_upto(s1, sc_name_count()) is Some {
        lemma_best_sc_shape(s1, sc_name_count());
    }
}


/// The space-form openers stay absent in any suffix.
proof fn lemma_no_space_openers_suffix(s: Seq<u8>, e: int)
    requires
        no_space_openers(s),
        0 <= e <= s.len(),
    ensures
        no_space_openers(s.subrange(e, s.len() as int)),
{
    let sub = s.subrange(e, s.len() as int);
    assert forall|j: int| 0 <= j < sc_name_count() implies find_pat(
        sub,
        #[trigger] sc_open_space(j),
        0,
    ) is None by {
        if find_pat(sub, sc_open_space(j), 0) is Some {
            lemma_find_pat_some(sub, sc_open_space(j), 0);
            let i = find_pat(sub, sc_open_space(j), 0)->Some_0;
            let len = sc_open_space(j).len() as int;
            assert(s.subrange(e + i, e + i + len) =~= sub.subrange(i, i + len));
            assert(match_at(s, sc_open_space(j), e + i));
            lemma_find_pat_none(s, sc_open_space(j), 0, e + i);
        }
    }
}

/// One extraction round is unchanged by bytes appended behind it, away from
/// the space-form openers and past the header.
proof fn lemma_extract_one_concat(s1: Seq<u8>, s2: Seq<u8>)
    requires
        valid_utf8(s2),
        no_space_openers(s1 + s2),
        extract_one(s1, false) is Some,
    ensures
        ({
            let (f, rest, h) = extract_one(s1, false)->Some_0;
            extract_one(s1 + s2, false) == Some((f, rest + s2, false))
        }),
{
    valid_utf8_concat(s1, s2);
    lemma_best_boundary_concat(s1, s2);
    lemma_best_boundary_shape(s1);
    let e = best_boundary_end(s1)->Some_0;
    assert((s1 + s2).subrange(0, e) =~= s1.subrange(0, e));
    assert((s1 + s2).subrange(e, (s1 + s2).len() as int) =~= s1.subrange(e, s1.len() as int)
        + s2);
}

/// Split-invariance law: past the stream header, extracting from one chunk
/// and then from the remainder joined with a second chunk yields the same
/// fragments, remaining buffer and mode as extracting from the two chunks
/// joined — provided each chunk is valid UTF-8 on its own and no space-form
/// self-closing opener occurs. (Each proviso names a real failure mode:
/// header consumption drops bytes, an invalid-UTF-8 tail delays extraction
/// across the seam, and a later `<name ` opener takes precedence over an
/// earlier `<name>`, moving the boundary.)
pub proof fn lemma_extract_split(s1: Seq<u8>, s2: Seq<u8>)
    requires
        valid_utf8(s1),
        valid_utf8(s2),
        no_space_openers(s1 + s2),
    ensures
        ({
            let (f1, rest1, h1) = extract_all(s1, false);
            let (f2, rest2, h2) = extract_all(rest1 + s2, false);
            extract_all(s1 + s2, false) == (f1 + f2, rest2, h2)
        }),
    decreases s1.len(),
{
    let (f1, rest1, h1) = extract_all(s1, false);
    match extract_one(s1, false) {
        None => {
            assert(f1 =~= Seq::<Seq<u8>>::empty());
            assert(rest1 == s1);
            let (f2, rest2, h2) = extract_all(s1 + s2, false);
            assert(Seq::<Seq<u8>>::empty() + f2 =~= f2);
        },
        Some((f, rest, h)) => {
            lemma_extract_one_shrinks(s1, false);
            lemma_extract_one_concat(s1, s2);
            // The remainder keeps the provisos.
            lemma_best_boundary_shape(s1);
            let e = best_boundary_end(s1)->Some_0;
            lemma_boundary_after_ascii(s1, e);
            valid_utf8_split(s1, e);
            assert(rest + s2 =~= (s1 + s2).subrange(e, (s1 + s2).len() as int));
            lemma_no_space_openers_suffix(s1 + s2, e);
            lemma_extract_split(rest, s2);
            // Assemble both sides.
            let ra = extract_all(rest, false);
            assert(extract_all(s1, false) == (seq![f] + ra.0, ra.1, ra.2));
            let rb = extract_all(ra.1 + s2, false);
            assert(extract_all(rest + s2, false) == (ra.0 + rb.0, rb.1, rb.2));
            assert((rest + s2).len() < (s1 + s2).len());
            assert(extract_all(s1 + s2, false) == (
                seq![f] + extract_all(rest + s2, false).0,
                extract_all(rest + s2, false).1,
                extract_all(rest + s2, false).2,
            ));
            assert(seq![f] + (ra.0 + rb.0) =~= (seq![f] + ra.0) + rb.0);
        },
    }
}

} // verus!
