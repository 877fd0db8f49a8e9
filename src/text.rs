//! Character-level text helpers: trimming, prefix and suffix stripping,
//! decimal integers, zero padding and filesystem-safe titles.
use vstd::prelude::*;

verus! {

/// Unicode `White_Space` characters, the set that `char::is_whitespace` tests.
pub open spec fn is_ws(c: char) -> bool {
    ('\u{9}' <= c && c <= '\u{d}') || c == ' ' || c == '\u{85}' || c == '\u{a0}' || c
        == '\u{1680}' || ('\u{2000}' <= c && c <= '\u{200a}') || c == '\u{2028}' || c
        == '\u{2029}' || c == '\u{202f}' || c == '\u{205f}' || c == '\u{3000}'
}

pub fn is_whitespace(c: char) -> (r: bool)
    ensures
        r == is_ws(c),
{
    ('\u{9}' <= c && c <= '\u{d}') || c == ' ' || c == '\u{85}' || c == '\u{a0}' || c
        == '\u{1680}' || ('\u{2000}' <= c && c <= '\u{200a}') || c == '\u{2028}' || c
        == '\u{2029}' || c == '\u{202f}' || c == '\u{205f}' || c == '\u{3000}'
}

/// `s` without its leading whitespace.
pub open spec fn trim_start(s: Seq<char>) -> Seq<char>
    decreases s.len(),
{
    if s.len() > 0 && is_ws(s[0]) {
        trim_start(s.drop_first())
    } else {
        s
    }
}

/// `s` without the trailing characters that `strip` selects.
pub open spec fn trim_end_by(s: Seq<char>, strip: spec_fn(char) -> bool) -> Seq<char>
    decreases s.len(),
{
    if s.len() > 0 && strip(s.last()) {
        trim_end_by(s.drop_last(), strip)
    } else {
        s
    }
}

pub open spec fn trim_end(s: Seq<char>) -> Seq<char> {
    trim_end_by(s, |c: char| is_ws(c))
}

/// `s` without leading and trailing whitespace, as `str::trim` gives it.
pub open spec fn trim(s: Seq<char>) -> Seq<char> {
    trim_end(trim_start(s))
}

/// What is left of `s` after `p`, when `s` starts with `p`.
pub open spec fn strip_prefix(s: Seq<char>, p: Seq<char>) -> Option<Seq<char>> {
    if p.is_prefix_of(s) {
        Some(s.subrange(p.len() as int, s.len() as int))
    } else {
        None
    }
}

/// What is left of `s` before `p`, when `s` ends with `p`.
pub open spec fn strip_suffix(s: Seq<char>, p: Seq<char>) -> Option<Seq<char>> {
    if p.len() <= s.len() && s.subrange(s.len() - p.len(), s.len() as int) == p {
        Some(s.subrange(0, s.len() - p.len()))
    } else {
        None
    }
}

pub open spec fn is_digit(c: char) -> bool {
    '0' <= c && c <= '9'
}

pub open spec fn all_digits(s: Seq<char>) -> bool {
    forall|i: int| 0 <= i < s.len() ==> is_digit(#[trigger] s[i])
}

/// The number that a run of decimal digits denotes.
pub open spec fn digits_value(s: Seq<char>) -> nat
    decreases s.len(),
{
    if s.len() == 0 {
        0
    } else {
        digits_value(s.drop_last()) * 10 + (s.last() as nat - '0' as nat) as nat
    }
}

/// The integer that `s` spells: an optional sign, then one or more decimal digits.
pub open spec fn int_of(s: Seq<char>) -> Option<int> {
    if s.len() > 0 && (s[0] == '+' || s[0] == '-') {
        let d = s.drop_first();
        if d.len() > 0 && all_digits(d) {
            if s[0] == '-' {
                Some(-(digits_value(d) as int))
            } else {
                Some(digits_value(d) as int)
            }
        } else {
            None
        }
    } else if s.len() > 0 && all_digits(s) {
        Some(digits_value(s) as int)
    } else {
        None
    }
}

/// What `str::parse::<i64>` gives: the integer, when `s` spells one that fits.
pub open spec fn i64_of(s: Seq<char>) -> Option<i64> {
    match int_of(s) {
        Some(v) => if i64::MIN <= v && v <= i64::MAX {
            Some(v as i64)
        } else {
            None
        },
        None => None,
    }
}

pub open spec fn digit_char(d: nat) -> char {
    seq!['0', '1', '2', '3', '4', '5', '6', '7', '8', '9'][d as int]
}

/// The decimal digits of `n`, most significant first.
pub open spec fn decimal(n: nat) -> Seq<char>
    decreases n,
{
    if n < 10 {
        seq![digit_char(n)]
    } else {
        decimal(n / 10).push(digit_char(n % 10))
    }
}

/// The text of an integer as `Display` writes it.
pub open spec fn int_text(i: int) -> Seq<char> {
    if i < 0 {
        seq!['-'] + decimal((-i) as nat)
    } else {
        decimal(i as nat)
    }
}

/// `s` padded on the left with zeros to at least `w` characters.
pub open spec fn zero_pad(s: Seq<char>, w: nat) -> Seq<char> {
    if s.len() < w {
        Seq::new((w - s.len()) as nat, |i: int| '0') + s
    } else {
        s
    }
}

/// The replacement used for a character that a file name cannot hold.
pub open spec fn safe_char(c: char) -> char {
    if c == '\\' || c == '/' || c == '\n' {
        ' '
    } else if c == ':' {
        '：'
    } else if c == '*' {
        '⭐'
    } else if c == '?' {
        '？'
    } else if c == '"' {
        '\''
    } else if c == '<' {
        '《'
    } else if c == '>' {
        '》'
    } else if c == '|' {
        '丨'
    } else {
        c
    }
}

/// A title made safe to use as a directory name: unsafe characters replaced,
/// surrounding whitespace and trailing dots removed.
pub open spec fn filename_filter_spec(s: Seq<char>) -> Seq<char> {
    trim(trim_end_by(trim(s.map_values(|c: char| safe_char(c))), |c: char| c == '.'))
}

/// Relies on `Vec::from_iter` over `str::chars`: the characters of `s`, in order.
#[verifier::external_body]
pub(crate) fn chars_of(s: &str) -> (r: Vec<char>)
    ensures
        r@ == s@,
{
    Vec::from_iter(s.chars())
}

/// Relies on `String::from_iter` over chars: the string of those characters.
#[verifier::external_body]
pub(crate) fn string_of(cs: &[char]) -> (r: String)
    ensures
        r@ == cs@,
{
    String::from_iter(cs.iter())
}

pub fn slice_to(cs: &Vec<char>, from: usize, to: usize) -> (r: Vec<char>)
    requires
        from <= to <= cs@.len(),
    ensures
        r@ == cs@.subrange(from as int, to as int),
{
    let mut out: Vec<char> = Vec::new();
    let mut i: usize = from;
    while i < to
        invariant
            from <= i <= to <= cs@.len(),
            out@ == cs@.subrange(from as int, i as int),
        decreases to - i,
    {
        out.push(cs[i]);
        proof {
            assert(cs@.subrange(from as int, i + 1) =~= cs@.subrange(from as int, i as int).push(
                cs@[i as int],
            ));
        }
        i = i + 1;
    }
    out
}

proof fn lemma_trim_start_skip(s: Seq<char>, i: int)
    requires
        0 <= i < s.len(),
        is_ws(s[i]),
    ensures
        trim_start(s.subrange(i, s.len() as int)) == trim_start(s.subrange(i + 1, s.len() as int)),
{
    let t = s.subrange(i, s.len() as int);
    assert(t.drop_first() =~= s.subrange(i + 1, s.len() as int));
}

proof fn lemma_trim_end_drop(s: Seq<char>, j: int, strip: spec_fn(char) -> bool)
    requires
        0 < j <= s.len(),
        strip(s[j - 1]),
    ensures
        trim_end_by(s.subrange(0, j), strip) == trim_end_by(s.subrange(0, j - 1), strip),
{
    let t = s.subrange(0, j);
    assert(t.drop_last() =~= s.subrange(0, j - 1));
}

pub fn trim_chars(cs: &Vec<char>) -> (r: Vec<char>)
    ensures
        r@ == trim(cs@),
{
    let n = cs.len();
    let mut i: usize = 0;
    proof {
        assert(cs@.subrange(0, n as int) =~= cs@);
    }
    while i < n && is_whitespace(cs[i])
        invariant
            0 <= i <= n == cs@.len(),
            trim_start(cs@) == trim_start(cs@.subrange(i as int, n as int)),
        decreases n - i,
    {
        proof {
            lemma_trim_start_skip(cs@, i as int);
        }
        i = i + 1;
    }
    let ghost rest = cs@.subrange(i as int, n as int);
    proof {
        assert(cs@.subrange(n as int, n as int) =~= Seq::<char>::empty());
        if i < n {
            assert(rest[0] == cs@[i as int]);
        }
        assert(trim_start(rest) == rest);
    }
    let mut j: usize = n;
    while j > i && is_whitespace(cs[j - 1])
        invariant
            i <= j <= n == cs@.len(),
            rest == cs@.subrange(i as int, n as int),
            trim_end(rest) == trim_end(cs@.subrange(i as int, j as int)),
        decreases j,
    {
        proof {
            let s2 = cs@.subrange(i as int, n as int);
            assert(cs@.subrange(i as int, j as int) =~= s2.subrange(0, j - i));
            assert(cs@.subrange(i as int, j - 1) =~= s2.subrange(0, j - 1 - i));
            lemma_trim_end_drop(s2, j - i, |c: char| is_ws(c));
        }
        j = j - 1;
    }
    let r = slice_to(cs, i, j);
    proof {
        if j > i {
            assert(r@.last() == cs@[j - 1]);
        }
        assert(trim_end(r@) == r@);
    }
    r
}

/// `cs` without the trailing `c` characters.
pub fn trim_end_matching(cs: &Vec<char>, c: char) -> (r: Vec<char>)
    ensures
        r@ == trim_end_by(cs@, |x: char| x == c),
{
    let n = cs.len();
    let mut j: usize = n;
    proof {
        assert(cs@.subrange(0, n as int) =~= cs@);
    }
    while j > 0 && cs[j - 1] == c
        invariant
            j <= n == cs@.len(),
            trim_end_by(cs@, |x: char| x == c) == trim_end_by(
                cs@.subrange(0, j as int),
                |x: char| x == c,
            ),
        decreases j,
    {
        proof {
            assert(cs@.subrange(0, n as int) =~= cs@);
            lemma_trim_end_drop(cs@, j as int, |x: char| x == c);
        }
        j = j - 1;
    }
    proof {
        assert(cs@.subrange(0, n as int) =~= cs@);
    }
    let r = slice_to(cs, 0, j);
    proof {
        if j > 0 {
            assert(r@.last() == cs@[j - 1]);
        }
    }
    r
}

/// Trims `s` as `str::trim` does.
pub fn trim_str(s: &str) -> (r: String)
    ensures
        r@ == trim(s@),
{
    let cs = chars_of(s);
    let t = trim_chars(&cs);
    string_of(t.as_slice())
}

pub fn starts_with(cs: &Vec<char>, p: &Vec<char>) -> (r: bool)
    ensures
        r == p@.is_prefix_of(cs@),
{
    if p.len() > cs.len() {
        return false;
    }
    let mut i: usize = 0;
    while i < p.len()
        invariant
            p@.len() <= cs@.len(),
            i <= p@.len(),
            forall|k: int| 0 <= k < i ==> p@[k] == cs@[k],
        decreases p@.len() - i,
    {
        if p[i] != cs[i] {
            return false;
        }
        i = i + 1;
    }
    proof {
        assert(cs@.subrange(0, p@.len() as int) =~= p@);
    }
    true
}

/// Strips the prefix `p` from `s`, as `str::strip_prefix` does.
pub fn strip_prefix_str(s: &str, p: &str) -> (r: Option<String>)
    ensures
        match r {
            Some(t) => strip_prefix(s@, p@) == Some(t@),
            None => strip_prefix(s@, p@) is None,
        },
{
    let cs = chars_of(s);
    let ps = chars_of(p);
    if starts_with(&cs, &ps) {
        let t = slice_to(&cs, ps.len(), cs.len());
        Some(string_of(t.as_slice()))
    } else {
        None
    }
}

pub fn ends_with(cs: &Vec<char>, p: &Vec<char>) -> (r: bool)
    ensures
        r == (p@.len() <= cs@.len() && cs@.subrange(cs@.len() - p@.len(), cs@.len() as int)
            == p@),
{
    if p.len() > cs.len() {
        return false;
    }
    let off = cs.len() - p.len();
    let mut i: usize = 0;
    while i < p.len()
        invariant
            off as int + p@.len() == cs@.len(),
            p@.len() == p.len(),
            cs@.len() == cs.len(),
            i <= p@.len(),
            forall|k: int| 0 <= k < i ==> p@[k] == cs@[off + k],
        decreases p@.len() - i,
    {
        if p[i] != cs[off + i] {
            proof {
                assert(cs@.subrange(off as int, cs@.len() as int)[i as int] != p@[i as int]);
            }
            return false;
        }
        i = i + 1;
    }
    proof {
        assert(cs@.subrange(off as int, cs@.len() as int) =~= p@);
    }
    true
}

/// Strips the suffix `p` from `s`, as `str::strip_suffix` does.
pub fn strip_suffix_str(s: &str, p: &str) -> (r: Option<String>)
    ensures
        match r {
            Some(t) => strip_suffix(s@, p@) == Some(t@),
            None => strip_suffix(s@, p@) is None,
        },
{
    let cs = chars_of(s);
    let ps = chars_of(p);
    if ends_with(&cs, &ps) {
        let t = slice_to(&cs, 0, cs.len() - ps.len());
        Some(string_of(t.as_slice()))
    } else {
        None
    }
}

const I64_CAP: u64 = 9223372036854775809;

/// Parses a decimal integer as `str::parse::<i64>` does.
pub fn parse_i64(s: &str) -> (r: Option<i64>)
    ensures
        r == i64_of(s@),
{
    let cs = chars_of(s);
    let n = cs.len();
    if n == 0 {
        return None;
    }
    let neg = cs[0] == '-';
    let start: usize = if cs[0] == '-' || cs[0] == '+' {
        1
    } else {
        0
    };
    if start == n {
        return None;
    }
    let ghost d = cs@.subrange(start as int, n as int);
    let mut acc: u64 = 0;
    let mut i: usize = start;
    while i < n
        invariant
            start <= i <= n == cs@.len(),
            cs@ == s@,
            start <= 1,
            start == 1 <==> (cs@[0] == '-' || cs@[0] == '+'),
            neg == (cs@[0] == '-'),
            d == cs@.subrange(start as int, n as int),
            all_digits(cs@.subrange(start as int, i as int)),
            acc as nat == if digits_value(cs@.subrange(start as int, i as int)) < I64_CAP as nat {
                digits_value(cs@.subrange(start as int, i as int))
            } else {
                I64_CAP as nat
            },
        decreases n - i,
    {
        let c = cs[i];
        if !('0' <= c && c <= '9') {
            proof {
                assert(d[i - start] == c);
                assert(!is_digit(d[i - start]));
                assert(!all_digits(d));
                assert(s@ == cs@);
                if start == 1 {
                    assert(cs@.drop_first() =~= d);
                    assert(s@.len() > 0 && (s@[0] == '+' || s@[0] == '-'));
                    assert(s@.drop_first() == d);
                    assert(int_of(s@) is None);
                } else {
                    assert(cs@ =~= d);
                    assert(!(s@[0] == '+' || s@[0] == '-'));
                    assert(int_of(s@) is None);
                }
            }
            return None;
        }
        let dv = (c as u32 - '0' as u32) as u64;
        proof {
            let pre = cs@.subrange(start as int, i + 1);
            assert(pre.drop_last() =~= cs@.subrange(start as int, i as int));
            assert(pre.last() == c);
        }
        if acc >= I64_CAP / 10 + 1 {
            acc = I64_CAP;
        } else {
            acc = acc * 10 + dv;
            if acc > I64_CAP {
                acc = I64_CAP;
            }
        }
        proof {
            let pre = cs@.subrange(start as int, i + 1);
            assert(all_digits(pre));
        }
        i = i + 1;
    }
    proof {
        assert(cs@.subrange(start as int, n as int) =~= d);
        if start == 1 {
            assert(cs@.drop_first() =~= d);
        } else {
            assert(cs@ =~= d);
        }
    }
    if neg {
        if acc > 9223372036854775808 {
            None
        } else if acc == 9223372036854775808 {
            Some(i64::MIN)
        } else {
            Some(-(acc as i64))
        }
    } else {
        if acc > 9223372036854775807 {
            None
        } else {
            Some(acc as i64)
        }
    }
}

pub fn digit_to_char(d: u64) -> (c: char)
    requires
        d < 10,
    ensures
        c == digit_char(d as nat),
{
    let digits: [char; 10] = ['0', '1', '2', '3', '4', '5', '6', '7', '8', '9'];
    proof {
        assert(digits@ =~= seq!['0', '1', '2', '3', '4', '5', '6', '7', '8', '9']);
    }
    digits[d as usize]
}

/// The decimal digits of `n`.
pub fn decimal_chars(n: u64) -> (r: Vec<char>)
    ensures
        r@ == decimal(n as nat),
{
    let mut acc: Vec<char> = Vec::new();
    let mut rem: u64 = n;
    while rem >= 10
        invariant
            decimal(n as nat) == decimal(rem as nat) + acc@,
        decreases rem,
    {
        let c = digit_to_char(rem % 10);
        proof {
            assert(decimal(rem as nat) == decimal((rem / 10) as nat).push(c));
            assert(decimal((rem / 10) as nat).push(c) + acc@ =~= decimal((rem / 10) as nat) + (
            seq![c] + acc@));
        }
        let ghost prev = acc@;
        acc.insert(0, c);
        proof {
            assert(acc@ =~= seq![c] + prev);
        }
        rem = rem / 10;
    }
    let c = digit_to_char(rem);
    let ghost prev = acc@;
    acc.insert(0, c);
    proof {
        assert(decimal(rem as nat) == seq![c]);
        assert(acc@ =~= seq![c] + prev);
    }
    acc
}

/// An integer written in decimal, as `Display` writes it.
pub fn int_string(i: i64) -> (r: String)
    ensures
        r@ == int_text(i as int),
{
    if i < 0 {
        let mag: u64 = if i == i64::MIN {
            9223372036854775808
        } else {
            (-i) as u64
        };
        let mut cs: Vec<char> = Vec::new();
        cs.push('-');
        let mut ds = decimal_chars(mag);
        cs.append(&mut ds);
        proof {
            assert(cs@ =~= seq!['-'] + decimal((-(i as int)) as nat));
        }
        string_of(cs.as_slice())
    } else {
        let ds = decimal_chars(i as u64);
        string_of(ds.as_slice())
    }
}

/// `n` in decimal, zero-padded to at least `w` digits, as `{:0w}` writes it.
pub fn zero_padded(n: u64, w: usize) -> (r: String)
    ensures
        r@ == zero_pad(decimal(n as nat), w as nat),
{
    let mut ds = decimal_chars(n);
    let ghost digits = ds@;
    let mut cs: Vec<char> = Vec::new();
    if ds.len() < w {
        let k = w - ds.len();
        let mut i: usize = 0;
        while i < k
            invariant
                i <= k,
                cs@ == Seq::new(i as nat, |j: int| '0'),
            decreases k - i,
        {
            cs.push('0');
            proof {
                assert(cs@ =~= Seq::new((i + 1) as nat, |j: int| '0'));
            }
            i = i + 1;
        }
    }
    let ghost pad = cs@;
    cs.append(&mut ds);
    proof {
        assert(cs@ =~= pad + digits);
        if digits.len() >= w {
            assert(pad =~= Seq::<char>::empty());
        }
    }
    string_of(cs.as_slice())
}

pub fn safe_filename_char(c: char) -> (r: char)
    ensures
        r == safe_char(c),
{
    if c == '\\' || c == '/' || c == '\n' {
        ' '
    } else if c == ':' {
        '：'
    } else if c == '*' {
        '⭐'
    } else if c == '?' {
        '？'
    } else if c == '"' {
        '\''
    } else if c == '<' {
        '《'
    } else if c == '>' {
        '》'
    } else if c == '|' {
        '丨'
    } else {
        c
    }
}

/// Makes a comic title safe to use as a directory name.
pub fn filename_filter(s: &str) -> (r: String)
    ensures
        r@ == filename_filter_spec(s@),
{
    let cs = chars_of(s);
    let mut mapped: Vec<char> = Vec::new();
    let mut i: usize = 0;
    while i < cs.len()
        invariant
            i <= cs@.len(),
            mapped@ == cs@.subrange(0, i as int).map_values(|c: char| safe_char(c)),
        decreases cs@.len() - i,
    {
        mapped.push(safe_filename_char(cs[i]));
        proof {
            assert(cs@.subrange(0, i + 1).map_values(|c: char| safe_char(c)) =~= cs@.subrange(
                0,
                i as int,
            ).map_values(|c: char| safe_char(c)).push(safe_char(cs@[i as int])));
        }
        i = i + 1;
    }
    proof {
        assert(cs@.subrange(0, cs@.len() as int) =~= cs@);
    }
    let t1 = trim_chars(&mapped);
    let t2 = trim_end_matching(&t1, '.');
    let t3 = trim_chars(&t2);
    string_of(t3.as_slice())
}

/// `s` without the leading characters that `strip` selects.
pub open spec fn trim_start_by(s: Seq<char>, strip: spec_fn(char) -> bool) -> Seq<char>
    decreases s.len(),
{
    if s.len() > 0 && strip(s[0]) {
        trim_start_by(s.drop_first(), strip)
    } else {
        s
    }
}

/// `s` without its leading `c` characters, as `str::trim_start_matches` gives it.
pub fn trim_start_matching(s: &str, c: char) -> (r: String)
    ensures
        r@ == trim_start_by(s@, |x: char| x == c),
{
    let cs = chars_of(s);
    let n = cs.len();
    let mut i: usize = 0;
    proof {
        assert(cs@.subrange(0, n as int) =~= cs@);
    }
    while i < n && cs[i] == c
        invariant
            i <= n == cs@.len(),
            trim_start_by(cs@, |x: char| x == c) == trim_start_by(
                cs@.subrange(i as int, n as int),
                |x: char| x == c,
            ),
        decreases n - i,
    {
        proof {
            let t = cs@.subrange(i as int, n as int);
            assert(t.drop_first() =~= cs@.subrange(i + 1, n as int));
        }
        i = i + 1;
    }
    let t = slice_to(&cs, i, n);
    proof {
        if i < n {
            assert(t@[0] == cs@[i as int]);
        }
    }
    string_of(t.as_slice())
}

/// `s` with every `c` removed.
pub open spec fn without_char(s: Seq<char>, c: char) -> Seq<char>
    decreases s.len(),
{
    if s.len() == 0 {
        s
    } else if s.last() == c {
        without_char(s.drop_last(), c)
    } else {
        without_char(s.drop_last(), c).push(s.last())
    }
}

/// `s` with every `c` removed, as `str::replace(c, "")` gives it.
pub fn remove_char(s: &str, c: char) -> (r: String)
    ensures
        r@ == without_char(s@, c),
{
    let cs = chars_of(s);
    let mut out: Vec<char> = Vec::new();
    let mut i: usize = 0;
    proof {
        assert(cs@.subrange(0, 0) =~= Seq::<char>::empty());
    }
    while i < cs.len()
        invariant
            i <= cs@.len(),
            out@ == without_char(cs@.subrange(0, i as int), c),
        decreases cs@.len() - i,
    {
        proof {
            let pre = cs@.subrange(0, i + 1);
            assert(pre.drop_last() =~= cs@.subrange(0, i as int));
            assert(pre.last() == cs@[i as int]);
        }
        if cs[i] != c {
            out.push(cs[i]);
        }
        i = i + 1;
    }
    proof {
        assert(cs@.subrange(0, cs@.len() as int) =~= cs@);
    }
    string_of(out.as_slice())
}

} // verus!
