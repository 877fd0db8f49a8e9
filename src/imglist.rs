//! Extraction of a gallery's image list from its page. The page embeds
//! `var imglist = [ {url: fast_img_host+\"…\", caption: \"…\"}, … ];`, which is
//! not JSON: the array is cut out of its line and rewritten textually into
//! JSON text, which the caller decodes.
use vstd::prelude::*;
use vstd::string::StringSliceAdditionalSpecFns;

verus! {

pub open spec fn newline() -> u8 {
    10u8
}

/// `p` occurs in `s` at position `i`.
pub open spec fn occurs_at(s: Seq<u8>, p: Seq<u8>, i: int) -> bool {
    0 <= i && i + p.len() <= s.len() && s.subrange(i, i + p.len()) == p
}

/// `s[ls..le]` is a whole line of `s`: bounded by newlines or the ends.
pub open spec fn is_line(s: Seq<u8>, ls: int, le: int) -> bool {
    &&& 0 <= ls <= le <= s.len()
    &&& (ls == 0 || s[ls - 1] == newline())
    &&& (le == s.len() || s[le] == newline())
    &&& forall|k: int| ls <= k < le ==> #[trigger] s[k] != newline()
}

/// `s[ls..le]` is the first line of `s` in which `p` occurs.
pub open spec fn first_line_with(s: Seq<u8>, p: Seq<u8>, ls: int, le: int) -> bool {
    &&& is_line(s, ls, le)
    &&& exists|i: int| ls <= i && i + p.len() <= le && #[trigger] occurs_at(s, p, i)
    &&& forall|i: int| 0 <= i < ls ==> !#[trigger] occurs_at(s, p, i)
}

/// The first `c` of `s[ls..le]` is at `k`.
pub open spec fn first_byte_at(s: Seq<u8>, ls: int, le: int, c: u8, k: int) -> bool {
    ls <= k < le && s[k] == c && forall|j: int| ls <= j < k ==> #[trigger] s[j] != c
}

/// The last `c` of `s[ls..le]` is at `k`.
pub open spec fn last_byte_at(s: Seq<u8>, ls: int, le: int, c: u8, k: int) -> bool {
    ls <= k < le && s[k] == c && forall|j: int| k < j < le ==> #[trigger] s[j] != c
}

/// `s` with every occurrence of `p` replaced by `r`, scanning left to right.
pub open spec fn replace_all(s: Seq<u8>, p: Seq<u8>, r: Seq<u8>) -> Seq<u8>
    decreases s.len(),
{
    if s.len() == 0 {
        s
    } else if p.len() > 0 && p.is_prefix_of(s) {
        r + replace_all(s.subrange(p.len() as int, s.len() as int), p, r)
    } else {
        seq![s[0]] + replace_all(s.drop_first(), p, r)
    }
}

/// `var imglist = `
pub open spec fn marker() -> Seq<u8> {
    seq![118u8, 97, 114, 32, 105, 109, 103, 108, 105, 115, 116, 32, 61, 32]
}

/// `url:` and `"url":`
pub open spec fn url_key() -> Seq<u8> {
    seq![117u8, 114, 108, 58]
}

pub open spec fn url_key_quoted() -> Seq<u8> {
    seq![34u8, 117, 114, 108, 34, 58]
}

/// `caption:` and `"caption":`
pub open spec fn caption_key() -> Seq<u8> {
    seq![99u8, 97, 112, 116, 105, 111, 110, 58]
}

pub open spec fn caption_key_quoted() -> Seq<u8> {
    seq![34u8, 99, 97, 112, 116, 105, 111, 110, 34, 58]
}

/// `fast_img_host+`
pub open spec fn host_prefix() -> Seq<u8> {
    seq![102u8, 97, 115, 116, 95, 105, 109, 103, 95, 104, 111, 115, 116, 43]
}

/// `\"` and `"`
pub open spec fn escaped_quote() -> Seq<u8> {
    seq![92u8, 34]
}

pub open spec fn quote() -> Seq<u8> {
    seq![34u8]
}

/// The rewriting that turns the page's array literal into JSON text.
pub open spec fn to_json_text(a: Seq<u8>) -> Seq<u8> {
    replace_all(
        replace_all(
            replace_all(replace_all(a, url_key(), url_key_quoted()), caption_key(), caption_key_quoted()),
            host_prefix(),
            Seq::empty(),
        ),
        escaped_quote(),
        quote(),
    )
}

/// What `imglist_json` returns for a page `s`: on the first line holding the
/// marker, the text from its first `[` to its last `]`, rewritten to JSON.
pub open spec fn imglist_json_spec(s: Seq<u8>, r: Option<Seq<u8>>) -> bool {
    match r {
        Some(out) => exists|ls: int, le: int, st: int, en: int|
            #![trigger first_line_with(s, marker(), ls, le), first_byte_at(s, ls, le, 91u8, st), last_byte_at(s, ls, le, 93u8, en)]
            first_line_with(s, marker(), ls, le) && first_byte_at(s, ls, le, 91u8, st)
                && last_byte_at(s, ls, le, 93u8, en) && st <= en && out == to_json_text(
                s.subrange(st, en + 1),
            ),
        None => forall|ls: int, le: int|
            #[trigger] first_line_with(s, marker(), ls, le) ==> {
                ||| forall|k: int| ls <= k < le ==> #[trigger] s[k] != 91u8
                ||| forall|k: int| ls <= k < le ==> #[trigger] s[k] != 93u8
                ||| exists|st: int, en: int|
                    #![trigger first_byte_at(s, ls, le, 91u8, st), last_byte_at(s, ls, le, 93u8, en)]
                    first_byte_at(s, ls, le, 91u8, st) && last_byte_at(s, ls, le, 93u8, en) && en
                        < st
            },
    }
}

fn occurs_at_exec(s: &[u8], p: &Vec<u8>, i: usize) -> (r: bool)
    ensures
        r == occurs_at(s@, p@, i as int),
{
    if i > s.len() || p.len() > s.len() - i {
        return false;
    }
    let mut k: usize = 0;
    while k < p.len()
        invariant
            i as int + p@.len() <= s@.len(),
            p@.len() == p.len(),
            s@.len() == s.len(),
            k <= p@.len(),
            forall|j: int| 0 <= j < k ==> s@[i + j] == p@[j],
        decreases p@.len() - k,
    {
        if s[i + k] != p[k] {
            proof {
                assert(s@.subrange(i as int, i + p@.len())[k as int] != p@[k as int]);
            }
            return false;
        }
        k = k + 1;
    }
    proof {
        assert(s@.subrange(i as int, i + p@.len()) =~= p@);
    }
    true
}

proof fn lemma_prefix_is_occurrence(s: Seq<u8>, p: Seq<u8>, i: int)
    requires
        0 <= i <= s.len(),
    ensures
        p.is_prefix_of(s.subrange(i, s.len() as int)) == occurs_at(s, p, i),
{
    let sub = s.subrange(i, s.len() as int);
    if p.len() <= sub.len() {
        assert(sub.subrange(0, p.len() as int) =~= s.subrange(i, i + p.len()));
    }
}

/// Replaces every occurrence of `p` in `s` by `r`, left to right.
pub fn replace_bytes(s: &[u8], p: &Vec<u8>, r: &Vec<u8>) -> (out: Vec<u8>)
    requires
        p@.len() > 0,
    ensures
        out@ == replace_all(s@, p@, r@),
{
    let mut out: Vec<u8> = Vec::new();
    let mut i: usize = 0;
    proof {
        assert(s@.subrange(0, s@.len() as int) =~= s@);
    }
    while i < s.len()
        invariant
            p@.len() > 0,
            i <= s@.len(),
            replace_all(s@, p@, r@) == out@ + replace_all(
                s@.subrange(i as int, s@.len() as int),
                p@,
                r@,
            ),
        decreases s@.len() - i,
    {
        let ghost sub = s@.subrange(i as int, s@.len() as int);
        proof {
            lemma_prefix_is_occurrence(s@, p@, i as int);
        }
        if occurs_at_exec(s, p, i) {
            let ghost prev = out@;
            let mut k: usize = 0;
            while k < r.len()
                invariant
                    k <= r@.len(),
                    out@ == prev + r@.subrange(0, k as int),
                decreases r@.len() - k,
            {
                out.push(r[k]);
                proof {
                    assert(r@.subrange(0, k + 1) =~= r@.subrange(0, k as int).push(r@[k as int]));
                }
                k = k + 1;
            }
            proof {
                assert(r@.subrange(0, r@.len() as int) =~= r@);
                assert(sub.subrange(p@.len() as int, sub.len() as int) =~= s@.subrange(
                    i + p@.len(),
                    s@.len() as int,
                ));
                assert(prev + (r@ + replace_all(
                    s@.subrange(i + p@.len(), s@.len() as int),
                    p@,
                    r@,
                )) =~= out@ + replace_all(s@.subrange(i + p@.len(), s@.len() as int), p@, r@));
            }
            i = i + p.len();
        } else {
            let ghost prev = out@;
            out.push(s[i]);
            proof {
                assert(sub.drop_first() =~= s@.subrange(i + 1, s@.len() as int));
                assert(prev + (seq![s@[i as int]] + replace_all(
                    s@.subrange(i + 1, s@.len() as int),
                    p@,
                    r@,
                )) =~= out@ + replace_all(s@.subrange(i + 1, s@.len() as int), p@, r@));
            }
            i = i + 1;
        }
    }
    proof {
        assert(s@.subrange(s@.len() as int, s@.len() as int) =~= Seq::<u8>::empty());
        assert(out@ + Seq::<u8>::empty() =~= out@);
    }
    out
}

proof fn lemma_marker_has_no_newline()
    ensures
        forall|k: int| 0 <= k < marker().len() ==> #[trigger] marker()[k] != newline(),
{
    let m = marker();
    assert(m.len() == 14);
    assert forall|k: int| 0 <= k < m.len() implies #[trigger] m[k] != newline() by {
        if k == 0 {
        } else if k == 1 {
        } else if k == 2 {
        } else if k == 3 {
        } else if k == 4 {
        } else if k == 5 {
        } else if k == 6 {
        } else if k == 7 {
        } else if k == 8 {
        } else if k == 9 {
        } else if k == 10 {
        } else if k == 11 {
        } else if k == 12 {
        } else {
            assert(k == 13);
        }
    }
}

proof fn lemma_line_unique(s: Seq<u8>, ls: int, le: int, ls2: int, le2: int, m: int)
    requires
        is_line(s, ls, le),
        is_line(s, ls2, le2),
        ls <= m < le,
        ls2 <= m < le2,
    ensures
        ls == ls2,
        le == le2,
{
    if ls < ls2 {
        assert(s[ls2 - 1] != newline());
    }
    if ls2 < ls {
        assert(s[ls - 1] != newline());
    }
    if le < le2 {
        assert(s[le] != newline());
    }
    if le2 < le {
        assert(s[le2] != newline());
    }
}

fn copy_range(b: &[u8], from: usize, to: usize) -> (r: Vec<u8>)
    requires
        from <= to <= b@.len(),
    ensures
        r@ == b@.subrange(from as int, to as int),
{
    let mut out: Vec<u8> = Vec::new();
    let mut i: usize = from;
    while i < to
        invariant
            from <= i <= to <= b@.len(),
            out@ == b@.subrange(from as int, i as int),
        decreases to - i,
    {
        out.push(b[i]);
        proof {
            assert(b@.subrange(from as int, i + 1) =~= b@.subrange(from as int, i as int).push(
                b@[i as int],
            ));
        }
        i = i + 1;
    }
    out
}

/// The JSON text of a gallery page's image list, cut from the first line of
/// `page` that holds `var imglist = `: from that line's first `[` to its last
/// `]`, with the bare keys `url:` and `caption:` quoted, `fast_img_host+`
/// removed and `\"` unescaped. `None` when no line holds the marker or the
/// brackets are missing or out of order.
pub fn imglist_json(page: &str) -> (r: Option<Vec<u8>>)
    ensures
        imglist_json_spec(
            page.spec_bytes(),
            match r {
                Some(v) => Some(v@),
                None => None,
            },
        ),
{
    let b = page.as_bytes();
    let ghost s = b@;
    let mk: Vec<u8> = vec![118u8, 97, 114, 32, 105, 109, 103, 108, 105, 115, 116, 32, 61, 32];
    proof {
        lemma_marker_has_no_newline();
    }
    let n = b.len();
    let mut m: usize = 0;
    while m < n && !occurs_at_exec(b, &mk, m)
        invariant
            s == b@,
            n == s.len(),
            mk@ == marker(),
            m <= n,
            forall|i: int| 0 <= i < m ==> !#[trigger] occurs_at(s, marker(), i),
        decreases n - m,
    {
        m = m + 1;
    }
    if m == n {
        proof {
            assert forall|ls: int, le: int| #[trigger]
                first_line_with(s, marker(), ls, le) implies false by {
                let i = choose|i: int| ls <= i && i + marker().len() <= le && #[trigger] occurs_at(
                    s,
                    marker(),
                    i,
                );
                assert(i < n);
                assert(!occurs_at(s, marker(), i));
            }
        }
        return None;
    }
    assert(occurs_at(s, marker(), m as int));
    let mut ls: usize = m;
    while ls > 0 && b[ls - 1] != 10u8
        invariant
            s == b@,
            ls <= m <= n == s.len(),
            forall|k: int| ls <= k < m ==> #[trigger] s[k] != newline(),
        decreases ls,
    {
        ls = ls - 1;
    }
    let mut le: usize = m;
    while le < n && b[le] != 10u8
        invariant
            s == b@,
            m <= le <= n == s.len(),
            forall|k: int| m <= k < le ==> #[trigger] s[k] != newline(),
        decreases n - le,
    {
        le = le + 1;
    }
    proof {
        assert(m + marker().len() <= le) by {
            if le < m + marker().len() {
                assert(s.subrange(m as int, m + marker().len()) == marker());
                assert(s[le as int] == marker()[le - m]);
            }
        }
        assert(first_line_with(s, marker(), ls as int, le as int));
    }
    let mut st: usize = ls;
    while st < le && b[st] != 91u8
        invariant
            s == b@,
            ls <= st <= le <= n == s.len(),
            forall|k: int| ls <= k < st ==> #[trigger] s[k] != 91u8,
        decreases le - st,
    {
        st = st + 1;
    }
    let mut en: usize = le;
    while en > ls && b[en - 1] != 93u8
        invariant
            s == b@,
            ls <= en <= le <= n == s.len(),
            forall|k: int| en <= k < le ==> #[trigger] s[k] != 93u8,
        decreases en,
    {
        en = en - 1;
    }
    proof {
        assert forall|ls2: int, le2: int| #[trigger]
            first_line_with(s, marker(), ls2, le2) implies ls2 == ls && le2 == le by {
            let i = choose|i: int| ls2 <= i && i + marker().len() <= le2 && #[trigger] occurs_at(
                s,
                marker(),
                i,
            );
            assert(m <= i);
            assert(ls2 <= m);
            lemma_line_unique(s, ls as int, le as int, ls2, le2, m as int);
        }
    }
    if st == le || en == ls || en - 1 < st {
        proof {
            if st < le && en > ls {
                assert(first_byte_at(s, ls as int, le as int, 91u8, st as int));
                assert(last_byte_at(s, ls as int, le as int, 93u8, en - 1));
            }
        }
        return None;
    }
    let a = copy_range(b, st, en);
    let k_url: Vec<u8> = vec![117u8, 114, 108, 58];
    let k_url_q: Vec<u8> = vec![34u8, 117, 114, 108, 34, 58];
    let k_cap: Vec<u8> = vec![99u8, 97, 112, 116, 105, 111, 110, 58];
    let k_cap_q: Vec<u8> = vec![34u8, 99, 97, 112, 116, 105, 111, 110, 34, 58];
    let host: Vec<u8> = vec![102u8, 97, 115, 116, 95, 105, 109, 103, 95, 104, 111, 115, 116, 43];
    let nothing: Vec<u8> = Vec::new();
    let esc: Vec<u8> = vec![92u8, 34];
    let q: Vec<u8> = vec![34u8];
    proof {
        assert(k_url@ =~= url_key());
        assert(k_cap@ =~= caption_key());
        assert(host@ =~= host_prefix());
        assert(esc@ =~= escaped_quote());
    }
    let r1 = replace_bytes(a.as_slice(), &k_url, &k_url_q);
    let r2 = replace_bytes(r1.as_slice(), &k_cap, &k_cap_q);
    let r3 = replace_bytes(r2.as_slice(), &host, &nothing);
    let r4 = replace_bytes(r3.as_slice(), &esc, &q);
    proof {
        assert(nothing@ =~= Seq::<u8>::empty());
        assert(k_url@ =~= url_key());
        assert(k_url_q@ =~= url_key_quoted());
        assert(k_cap@ =~= caption_key());
        assert(k_cap_q@ =~= caption_key_quoted());
        assert(host@ =~= host_prefix());
        assert(esc@ =~= escaped_quote());
        assert(q@ =~= quote());
        assert(first_byte_at(s, ls as int, le as int, 91u8, st as int));
        assert(last_byte_at(s, ls as int, le as int, 93u8, en - 1));
        assert(r4@ == to_json_text(s.subrange(st as int, en as int)));
    }
    Some(r4)
}

} // verus!
