//! Small verified helpers for working with text as sequences of characters.
use vstd::prelude::*;
use vstd::std_specs::iter::IteratorSpec;

verus! {

broadcast use vstd::string::group_string_axioms;

/// The characters of `s`, in order.
pub fn chars_of(s: &str) -> (out: Vec<char>)
    ensures
        out@ == s@,
{
    let mut out: Vec<char> = Vec::new();
    for c in iter: s.chars()
        invariant
            out@ == iter.seq().take(iter.index() as int),
    {
        out.push(c);
    }
    proof {
        assert(out@ =~= s@);
    }
    out
}

/// Appends the characters of `s` to `out`.
pub fn push_str(out: &mut Vec<char>, s: &str)
    ensures
        final(out)@ == old(out)@ + s@,
{
    let more = chars_of(s);
    let mut i: usize = 0;
    while i < more.len()
        invariant
            more@ == s@,
            i <= more@.len(),
            out@ == old(out)@ + more@.take(i as int),
        decreases more@.len() - i,
    {
        out.push(more[i]);
        i = i + 1;
        proof {
            assert(more@.take(i as int) =~= more@.take(i - 1).push(more@[i - 1]));
        }
    }
    proof {
        assert(more@.take(i as int) =~= more@);
    }
}

/// Appends the characters of `s` to `out`.
pub fn push_chars(out: &mut Vec<char>, s: &Vec<char>)
    ensures
        final(out)@ == old(out)@ + s@,
{
    let mut i: usize = 0;
    while i < s.len()
        invariant
            i <= s@.len(),
            out@ == old(out)@ + s@.take(i as int),
        decreases s@.len() - i,
    {
        out.push(s[i]);
        i = i + 1;
        proof {
            assert(s@.take(i as int) =~= s@.take(i - 1).push(s@[i - 1]));
        }
    }
    proof {
        assert(s@.take(i as int) =~= s@);
    }
}

/// Whether two character sequences are equal.
pub fn chars_eq(a: &Vec<char>, b: &Vec<char>) -> (r: bool)
    ensures
        r == (a@ == b@),
{
    if a.len() != b.len() {
        return false;
    }
    let mut i: usize = 0;
    while i < a.len()
        invariant
            a@.len() == b@.len(),
            i <= a@.len(),
            forall|k: int| 0 <= k < i ==> a@[k] == b@[k],
        decreases a@.len() - i,
    {
        if a[i] != b[i] {
            return false;
        }
        i = i + 1;
    }
    proof {
        assert(a@ =~= b@);
    }
    true
}

/// Whether `a` holds exactly the characters of `b`.
pub fn chars_eq_str(a: &Vec<char>, b: &str) -> (r: bool)
    ensures
        r == (a@ == b@),
{
    let bc = chars_of(b);
    chars_eq(a, &bc)
}

/// Whether `s` begins with `prefix`.
pub fn starts_with(s: &Vec<char>, prefix: &str) -> (r: bool)
    ensures
        r == (prefix@.len() <= s@.len() && s@.take(prefix@.len() as int) == prefix@),
{
    let p = chars_of(prefix);
    if p.len() > s.len() {
        return false;
    }
    let mut i: usize = 0;
    while i < p.len()
        invariant
            p@ == prefix@,
            p@.len() <= s@.len(),
            i <= p@.len(),
            forall|k: int| 0 <= k < i ==> s@[k] == p@[k],
        decreases p@.len() - i,
    {
        if s[i] != p[i] {
            proof {
                assert(s@.take(p@.len() as int)[i as int] != p@[i as int]);
            }
            return false;
        }
        i = i + 1;
    }
    proof {
        assert(s@.take(p@.len() as int) =~= p@);
    }
    true
}

/// The characters of `s` from `from` up to (not including) `to`.
pub fn sub_chars(s: &Vec<char>, from: usize, to: usize) -> (r: Vec<char>)
    requires
        from <= to <= s@.len(),
    ensures
        r@ == s@.subrange(from as int, to as int),
{
    let mut r: Vec<char> = Vec::new();
    let mut i: usize = from;
    while i < to
        invariant
            from <= i <= to <= s@.len(),
            r@ == s@.subrange(from as int, i as int),
        decreases to - i,
    {
        r.push(s[i]);
        i = i + 1;
        proof {
            assert(r@ =~= s@.subrange(from as int, i as int));
        }
    }
    r
}

/// The position of the first `c` in `s`, if there is one.
pub fn find_char(s: &Vec<char>, c: char) -> (r: Option<usize>)
    ensures
        match r {
            Some(i) => i < s@.len() && s@[i as int] == c && forall|k: int| 0 <= k < i ==> s@[k] != c,
            None => forall|k: int| 0 <= k < s@.len() ==> s@[k] != c,
        },
{
    let mut i: usize = 0;
    while i < s.len()
        invariant
            i <= s@.len(),
            forall|k: int| 0 <= k < i ==> s@[k] != c,
        decreases s@.len() - i,
    {
        if s[i] == c {
            return Some(i);
        }
        i = i + 1;
    }
    None
}

/// Whether `c` is white space as Unicode's `White_Space` property defines it,
/// which is what `char::is_whitespace` tests: the ASCII tab, line feed, vertical
/// tab, form feed, carriage return and space, next line, no-break space, the
/// ogham space mark, the en quad through the hair space, the line and paragraph
/// separators, the narrow no-break space, the medium mathematical space and the
/// ideographic space.
pub open spec fn unicode_whitespace(c: char) -> bool {
    ||| '\u{9}' <= c <= '\u{d}'
    ||| c == ' '
    ||| c == '\u{85}'
    ||| c == '\u{a0}'
    ||| c == '\u{1680}'
    ||| '\u{2000}' <= c <= '\u{200a}'
    ||| c == '\u{2028}'
    ||| c == '\u{2029}'
    ||| c == '\u{202f}'
    ||| c == '\u{205f}'
    ||| c == '\u{3000}'
}

/// Whether `c` is white space, as `char::is_whitespace` answers.
pub fn is_whitespace(c: char) -> (r: bool)
    ensures
        r == unicode_whitespace(c),
{
    ('\u{9}' <= c && c <= '\u{d}') || c == ' ' || c == '\u{85}' || c == '\u{a0}' || c == '\u{1680}'
        || ('\u{2000}' <= c && c <= '\u{200a}') || c == '\u{2028}' || c == '\u{2029}' || c == '\u{202f}'
        || c == '\u{205f}' || c == '\u{3000}'
}

/// Whether `i` is where the run of leading characters satisfying `p` ends.
pub open spec fn is_lead_end(s: Seq<char>, p: spec_fn(char) -> bool, i: int) -> bool {
    &&& 0 <= i <= s.len()
    &&& forall|k: int| 0 <= k < i ==> p(#[trigger] s[k])
    &&& (i == s.len() || !p(s[i]))
}

/// Whether `j` is where the run of trailing characters satisfying `p` starts.
pub open spec fn is_tail_start(s: Seq<char>, p: spec_fn(char) -> bool, j: int) -> bool {
    &&& 0 <= j <= s.len()
    &&& forall|k: int| j <= k < s.len() ==> p(#[trigger] s[k])
    &&& (j == 0 || !p(s[j - 1]))
}

/// `s` without its leading characters that satisfy `p`.
pub open spec fn trim_start_by(s: Seq<char>, p: spec_fn(char) -> bool) -> Seq<char> {
    let i = choose|i: int| is_lead_end(s, p, i);
    s.subrange(i, s.len() as int)
}

/// `s` without its trailing characters that satisfy `p`.
pub open spec fn trim_end_by(s: Seq<char>, p: spec_fn(char) -> bool) -> Seq<char> {
    let j = choose|j: int| is_tail_start(s, p, j);
    s.subrange(0, j)
}

/// `s` without the characters that satisfy `p` at either end.
pub open spec fn trim_by(s: Seq<char>, p: spec_fn(char) -> bool) -> Seq<char> {
    trim_end_by(trim_start_by(s, p), p)
}

proof fn lemma_lead_end_unique(s: Seq<char>, p: spec_fn(char) -> bool, i: int, j: int)
    requires
        is_lead_end(s, p, i),
        is_lead_end(s, p, j),
    ensures
        i == j,
{
    if i < j {
        assert(p(s[i]));
    } else if j < i {
        assert(p(s[j]));
    }
}

proof fn lemma_tail_start_unique(s: Seq<char>, p: spec_fn(char) -> bool, i: int, j: int)
    requires
        is_tail_start(s, p, i),
        is_tail_start(s, p, j),
    ensures
        i == j,
{
    if i < j {
        assert(p(s[j - 1]));
    } else if j < i {
        assert(p(s[i - 1]));
    }
}

proof fn lemma_lead_end_exists(s: Seq<char>, p: spec_fn(char) -> bool)
    ensures
        exists|i: int| is_lead_end(s, p, i),
    decreases s.len(),
{
    if s.len() == 0 || !p(s[0]) {
        assert(is_lead_end(s, p, 0));
    } else {
        lemma_lead_end_exists(s.drop_first(), p);
        let j = choose|j: int| is_lead_end(s.drop_first(), p, j);
        assert forall|k: int| 0 <= k < j + 1 implies p(#[trigger] s[k]) by {
            if k > 0 {
                assert(s[k] == s.drop_first()[k - 1]);
            }
        }
        if j + 1 < s.len() {
            assert(s[j + 1] == s.drop_first()[j]);
        }
        assert(is_lead_end(s, p, j + 1));
    }
}

proof fn lemma_tail_start_exists(s: Seq<char>, p: spec_fn(char) -> bool)
    ensures
        exists|j: int| is_tail_start(s, p, j),
    decreases s.len(),
{
    if s.len() == 0 || !p(s.last()) {
        assert(is_tail_start(s, p, s.len() as int));
    } else {
        lemma_tail_start_exists(s.drop_last(), p);
        let j = choose|j: int| is_tail_start(s.drop_last(), p, j);
        assert forall|k: int| j <= k < s.len() implies p(#[trigger] s[k]) by {
            if k < s.len() - 1 {
                assert(s[k] == s.drop_last()[k]);
            }
        }
        if j > 0 {
            assert(s[j - 1] == s.drop_last()[j - 1]);
        }
        assert(is_tail_start(s, p, j));
    }
}

/// Trimming only removes characters from the ends: every character left was a
/// character of the text.
pub proof fn lemma_trimmed_chars_come_from_the_text(s: Seq<char>, p: spec_fn(char) -> bool)
    ensures
        forall|k: int| 0 <= k < trim_by(s, p).len() ==> s.contains(#[trigger] trim_by(s, p)[k]),
{
    lemma_lead_end_exists(s, p);
    let i = choose|i: int| is_lead_end(s, p, i);
    let front = trim_start_by(s, p);
    assert(front == s.subrange(i, s.len() as int));
    lemma_tail_start_exists(front, p);
    let j = choose|j: int| is_tail_start(front, p, j);
    let both = trim_by(s, p);
    assert(both == front.subrange(0, j));
    assert forall|k: int| 0 <= k < both.len() implies s.contains(#[trigger] both[k]) by {
        assert(both[k] == s[i + k]);
    }
}

/// The white space `str::trim` removes.
pub open spec fn ws() -> spec_fn(char) -> bool {
    |c: char| unicode_whitespace(c)
}

/// `s` without leading and trailing white space, as `str::trim` returns it.
pub fn trim_whitespace(s: &Vec<char>) -> (r: Vec<char>)
    ensures
        r@ == trim_by(s@, ws()),
{
    let n = s.len();
    let mut i: usize = 0;
    while i < n && is_whitespace(s[i])
        invariant
            n == s@.len(),
            i <= n,
            forall|k: int| 0 <= k < i ==> ws()(#[trigger] s@[k]),
        decreases n - i,
    {
        i = i + 1;
    }
    proof {
        assert(is_lead_end(s@, ws(), i as int));
        let c = choose|c: int| is_lead_end(s@, ws(), c);
        lemma_lead_end_unique(s@, ws(), i as int, c);
    }
    let rest = sub_chars(s, i, n);
    let m = rest.len();
    let mut j: usize = m;
    while j > 0 && is_whitespace(rest[j - 1])
        invariant
            m == rest@.len(),
            j <= m,
            forall|k: int| j <= k < m ==> ws()(#[trigger] rest@[k]),
        decreases j,
    {
        j = j - 1;
    }
    proof {
        assert(is_tail_start(rest@, ws(), j as int));
        let c = choose|c: int| is_tail_start(rest@, ws(), c);
        lemma_tail_start_unique(rest@, ws(), j as int, c);
    }
    sub_chars(&rest, 0, j)
}

/// The test for the character `c`.
pub open spec fn is_char(c: char) -> spec_fn(char) -> bool {
    |x: char| x == c
}

/// `s` without leading and trailing copies of `c`, as `str::trim_matches(c)` returns it.
pub fn trim_char(s: &Vec<char>, c: char) -> (r: Vec<char>)
    ensures
        r@ == trim_by(s@, is_char(c)),
{
    let ghost p = is_char(c);
    let n = s.len();
    let mut i: usize = 0;
    while i < n && s[i] == c
        invariant
            p == is_char(c),
            n == s@.len(),
            i <= n,
            forall|k: int| 0 <= k < i ==> p(#[trigger] s@[k]),
        decreases n - i,
    {
        i = i + 1;
    }
    proof {
        assert(is_lead_end(s@, p, i as int));
        let w = choose|w: int| is_lead_end(s@, p, w);
        lemma_lead_end_unique(s@, p, i as int, w);
    }
    let rest = sub_chars(s, i, n);
    let m = rest.len();
    let mut j: usize = m;
    while j > 0 && rest[j - 1] == c
        invariant
            p == is_char(c),
            m == rest@.len(),
            j <= m,
            forall|k: int| j <= k < m ==> p(#[trigger] rest@[k]),
        decreases j,
    {
        j = j - 1;
    }
    proof {
        assert(is_tail_start(rest@, p, j as int));
        let w = choose|w: int| is_tail_start(rest@, p, w);
        lemma_tail_start_unique(rest@, p, j as int, w);
    }
    sub_chars(&rest, 0, j)
}

/// `s` with every occurrence of `pat` replaced by `rep`, scanning from the left
/// without overlaps, as `str::replace` does.
pub open spec fn replace_all(s: Seq<char>, pat: Seq<char>, rep: Seq<char>) -> Seq<char>
    recommends
        pat.len() > 0,
    decreases s.len(),
{
    if pat.len() == 0 || s.len() < pat.len() {
        s
    } else if s.take(pat.len() as int) == pat {
        rep + replace_all(s.skip(pat.len() as int), pat, rep)
    } else {
        seq![s[0]] + replace_all(s.drop_first(), pat, rep)
    }
}

/// Whether `pat` occurs in `s` at position `i`.
fn occurs_at(s: &Vec<char>, pat: &Vec<char>, i: usize) -> (r: bool)
    requires
        i <= s@.len(),
    ensures
        r == (pat@.len() <= s@.len() - i && s@.skip(i as int).take(pat@.len() as int) == pat@),
{
    if pat.len() > s.len() - i {
        return false;
    }
    let mut k: usize = 0;
    while k < pat.len()
        invariant
            i <= s@.len(),
            pat@.len() <= s@.len() - i,
            k <= pat@.len(),
            forall|t: int| 0 <= t < k ==> s@[i + t] == pat@[t],
        decreases pat@.len() - k,
    {
        assert(i + k < s.len());
        let at: usize = i + k;
        if s[at] != pat[k] {
            proof {
                assert(s@.skip(i as int).take(pat@.len() as int)[k as int] != pat@[k as int]);
            }
            return false;
        }
        k = k + 1;
    }
    proof {
        assert(s@.skip(i as int).take(pat@.len() as int) =~= pat@);
    }
    true
}

/// `s` with every occurrence of `pat` replaced by `rep`.
pub fn replace_all_chars(s: &Vec<char>, pat: &str, rep: &Vec<char>) -> (r: Vec<char>)
    requires
        pat@.len() > 0,
    ensures
        r@ == replace_all(s@, pat@, rep@),
{
    let p = chars_of(pat);
    let mut out: Vec<char> = Vec::new();
    let mut i: usize = 0;
    proof {
        assert(s@.skip(0) =~= s@);
        assert(out@ + replace_all(s@, p@, rep@) =~= replace_all(s@, p@, rep@));
    }
    while i < s.len()
        invariant
            p@ == pat@,
            p@.len() > 0,
            i <= s@.len(),
            out@ + replace_all(s@.skip(i as int), p@, rep@) == replace_all(s@, p@, rep@),
        decreases s@.len() - i,
    {
        let ghost rest = s@.skip(i as int);
        if occurs_at(s, &p, i) {
            push_chars(&mut out, rep);
            proof {
                assert(rest.skip(p@.len() as int) =~= s@.skip(i + p@.len()));
                assert(out@ + replace_all(s@.skip(i + p@.len()), p@, rep@) =~= replace_all(s@, p@, rep@));
            }
            i = i + p.len();
        } else {
            out.push(s[i]);
            proof {
                assert(rest.drop_first() =~= s@.skip(i + 1));
                if rest.len() >= p@.len() {
                    assert(rest.take(p@.len() as int) != p@);
                }
                assert(out@ + replace_all(s@.skip(i + 1), p@, rep@) =~= replace_all(s@, p@, rep@));
            }
            i = i + 1;
        }
    }
    proof {
        assert(s@.skip(i as int) =~= Seq::<char>::empty());
        assert(out@ =~= replace_all(s@, p@, rep@));
    }
    out
}

/// `n` zeros.
pub open spec fn zeros(n: int) -> Seq<char> {
    Seq::new(if n > 0 { n as nat } else { 0 }, |i: int| '0')
}

/// `n` in decimal, zero-padded to at least three characters with any minus sign
/// counted among them, as `format!("{n:03}")` writes it.
pub open spec fn padded3(n: int) -> Seq<char> {
    if n >= 0 {
        zeros(3 - decimal(n as nat).len()) + decimal(n as nat)
    } else {
        seq!['-'] + zeros(2 - decimal((-n) as nat).len()) + decimal((-n) as nat)
    }
}

/// Appends `n` zero-padded to three characters.
pub fn push_padded3(out: &mut Vec<char>, n: i64)
    ensures
        final(out)@ == old(out)@ + padded3(n as int),
{
    let mut digits: Vec<char> = Vec::new();
    let width: usize;
    if n >= 0 {
        push_decimal(&mut digits, n as u64);
        width = 3;
    } else {
        out.push('-');
        let magnitude: u64 = if n == i64::MIN { 9_223_372_036_854_775_808u64 } else { (-n) as u64 };
        push_decimal(&mut digits, magnitude);
        width = 2;
    }
    let ghost before = out@;
    let mut k: usize = digits.len();
    while k < width
        invariant
            digits.len() <= k <= width || width <= digits.len() == k,
            out@ == before + zeros(k - digits@.len()),
        decreases width - k,
    {
        out.push('0');
        proof {
            assert(out@ =~= before + zeros(k + 1 - digits@.len()));
        }
        k = k + 1;
    }
    proof {
        assert(zeros(k - digits@.len()) =~= zeros(width - digits@.len()));
    }
    push_chars(out, &digits);
    proof {
        if n < 0 {
            assert(final(out)@ =~= old(out)@ + padded3(n as int));
        } else {
            assert(final(out)@ =~= old(out)@ + padded3(n as int));
        }
    }
}

/// Builds a `String` from its characters.
#[verifier::external_body]
pub(crate) fn string_from_chars(chars: &Vec<char>) -> (s: String)
    ensures
        s@ == chars@,
{
    chars.iter().collect()
}

/// The decimal digit `d` as a character.
pub open spec fn digit_char(d: nat) -> char {
    (d + 48) as char
}

/// The decimal representation of `n`, without leading zeros.
pub open spec fn decimal(n: nat) -> Seq<char>
    decreases n,
{
    if n < 10 {
        seq![digit_char(n)]
    } else {
        decimal(n / 10).push(digit_char(n % 10))
    }
}

/// Appends the decimal representation of `n` to `out`.
pub fn push_decimal(out: &mut Vec<char>, n: u64)
    ensures
        final(out)@ == old(out)@ + decimal(n as nat),
    decreases n,
{
    if n >= 10 {
        push_decimal(out, n / 10);
    }
    let d: u8 = (n % 10) as u8;
    let c: char = (d + 48) as char;
    out.push(c);
    proof {
        assert(c == digit_char((n % 10) as nat));
        if n >= 10 {
            assert(decimal(n as nat) == decimal((n / 10) as nat).push(digit_char((n % 10) as nat)));
        }
    }
}

/// Whether two string slices hold the same characters.
pub fn same_text(a: &str, b: &str) -> (r: bool)
    ensures
        r == (a@ == b@),
{
    let chars = chars_of(a);
    chars_eq_str(&chars, b)
}

/// Every character of a decimal number is a digit.
pub proof fn lemma_decimal_is_digits(n: nat)
    ensures
        forall|k: int| 0 <= k < decimal(n).len() ==> '0' <= #[trigger] decimal(n)[k] <= '9',
    decreases n,
{
    if n >= 10 {
        lemma_decimal_is_digits(n / 10);
        let d = decimal(n);
        assert forall|k: int| 0 <= k < d.len() implies '0' <= #[trigger] d[k] <= '9' by {
            if k < d.len() - 1 {
                assert(d[k] == decimal(n / 10)[k]);
            }
        }
    }
}

/// A zero-padded number holds only digits and, for a negative one, a leading minus.
pub proof fn lemma_padded3_is_digits_or_minus(n: int)
    ensures
        forall|k: int| 0 <= k < padded3(n).len() ==> ('0' <= #[trigger] padded3(n)[k] <= '9' || padded3(n)[k] == '-'),
{
    let p = padded3(n);
    if n >= 0 {
        let d = decimal(n as nat);
        lemma_decimal_is_digits(n as nat);
        let z = zeros(3 - d.len());
        assert forall|k: int| 0 <= k < p.len() implies ('0' <= #[trigger] p[k] <= '9' || p[k] == '-') by {
            if k < z.len() {
                assert(p[k] == z[k]);
            } else {
                assert(p[k] == d[k - z.len()]);
            }
        }
    } else {
        let d = decimal((-n) as nat);
        lemma_decimal_is_digits((-n) as nat);
        let z = zeros(2 - d.len());
        assert forall|k: int| 0 <= k < p.len() implies ('0' <= #[trigger] p[k] <= '9' || p[k] == '-') by {
            if k == 0 {
            } else if k < 1 + z.len() {
                assert(p[k] == z[k - 1]);
            } else {
                assert(p[k] == d[k - 1 - z.len()]);
            }
        }
    }
}

} // verus!
