use vstd::prelude::*;

use crate::parser::digits_value;

verus! {

/// Appends one character to a string (`String::push`).
/// Trusted: the standard library documents that `push` appends the given
/// character to the end of the string.
#[verifier::external_body]
pub(crate) fn push_char(s: &mut String, c: char)
    ensures
        final(s)@ == old(s)@.push(c),
{
    s.push(c);
}

/// The characters of a string slice, in order.
pub fn chars_of(s: &str) -> (v: Vec<char>)
    ensures
        v@ == s@,
{
    let mut v: Vec<char> = Vec::new();
    for c in it: s.chars()
        invariant
            v@ == it.seq().take(it.index() as int),
    {
        v.push(c);
    }
    v
}

/// The decimal digit character for a value below ten.
pub open spec fn digit_char(d: int) -> char {
    (48 + d) as char
}

/// The decimal representation of a natural number, without leading zeros.
pub open spec fn decimal_nat(n: nat) -> Seq<char>
    decreases n,
{
    if n < 10 {
        seq![digit_char(n as int)]
    } else {
        decimal_nat(n / 10).push(digit_char((n % 10) as int))
    }
}

/// The decimal representation of an integer, with a leading `-` when negative.
pub open spec fn decimal_int(v: int) -> Seq<char> {
    if v < 0 {
        seq!['-'] + decimal_nat((-v) as nat)
    } else {
        decimal_nat(v as nat)
    }
}

/// Appends the decimal representation of `n`.
pub(crate) fn push_u64(s: &mut String, n: u64)
    ensures
        final(s)@ == old(s)@ + decimal_nat(n as nat),
    decreases n,
{
    if n >= 10 {
        push_u64(s, n / 10);
    }
    let d: u8 = (n % 10) as u8;
    let c: char = (48u8 + d) as char;
    push_char(s, c);
    proof {
        assert(c == digit_char((n % 10) as int));
    }
}

/// Appends the decimal representation of `n`.
pub(crate) fn push_usize(s: &mut String, n: usize)
    ensures
        final(s)@ == old(s)@ + decimal_nat(n as nat),
{
    push_u64(s, n as u64);
}

/// Appends the decimal representation of `v`, with a `-` sign when negative.
pub(crate) fn push_i64(s: &mut String, v: i64)
    ensures
        final(s)@ == old(s)@ + decimal_int(v as int),
{
    if v < 0 {
        push_char(s, '-');
        let m: u64 = (0i128 - (v as i128)) as u64;
        push_u64(s, m);
        proof {
            assert(old(s)@.push('-') + decimal_nat(m as nat) =~= old(s)@ + (seq!['-'] + decimal_nat(m as nat)));
        }
    } else {
        push_u64(s, v as u64);
    }
}

/// The position of the first line feed at or after `i`, or the length of `s`.
pub open spec fn first_newline(s: Seq<char>, i: int) -> int
    decreases s.len() - i,
{
    if i >= s.len() || i < 0 {
        s.len() as int
    } else if s[i] == '\n' {
        i
    } else {
        first_newline(s, i + 1)
    }
}

/// A line without the carriage return that preceded its line feed, if any.
pub open spec fn strip_cr(line: Seq<char>) -> Seq<char> {
    if line.len() > 0 && line.last() == '\r' {
        line.drop_last()
    } else {
        line
    }
}

/// The lines of `s` from position `p` on, as `str::lines` splits them: at each
/// `\n` or `\r\n`; a final line ending is optional and yields no empty line.
pub open spec fn lines_from(s: Seq<char>, p: int) -> Seq<Seq<char>>
    decreases s.len() - p,
{
    if p < 0 || p >= s.len() {
        seq![]
    } else {
        let k = first_newline(s, p);
        if k >= s.len() {
            seq![s.subrange(p, s.len() as int)]
        } else {
            proof {
                lemma_first_newline_bounds(s, p);
            }
            seq![strip_cr(s.subrange(p, k))] + lines_from(s, k + 1)
        }
    }
}

/// The lines of a text.
pub open spec fn text_lines(s: Seq<char>) -> Seq<Seq<char>> {
    lines_from(s, 0)
}

/// Each line indented by two spaces and ended by a line feed.
pub open spec fn indent_each(lines: Seq<Seq<char>>) -> Seq<char>
    decreases lines.len(),
{
    if lines.len() == 0 {
        Seq::empty()
    } else {
        "  "@ + lines[0] + "\n"@ + indent_each(lines.drop_first())
    }
}

/// The first line feed from `i` on lies within the text, and is one.
pub proof fn lemma_first_newline_bounds(s: Seq<char>, i: int)
    requires
        0 <= i <= s.len(),
    ensures
        i <= first_newline(s, i) <= s.len(),
        first_newline(s, i) < s.len() ==> s[first_newline(s, i)] == '\n',
    decreases s.len() - i,
{
    if i < s.len() && s[i] != '\n' {
        lemma_first_newline_bounds(s, i + 1);
    }
}

/// Appends the characters `v[from..to]`.
pub(crate) fn push_chars(out: &mut String, v: &Vec<char>, from: usize, to: usize)
    requires
        from <= to <= v.len(),
    ensures
        final(out)@ == old(out)@ + v@.subrange(from as int, to as int),
{
    let mut i = from;
    while i < to
        invariant
            from <= i <= to <= v.len(),
            out@ == old(out)@ + v@.subrange(from as int, i as int),
        decreases to - i,
    {
        push_char(out, v[i]);
        proof {
            assert(v@.subrange(from as int, i + 1) =~= v@.subrange(from as int, i as int).push(v@[i as int]));
        }
        i = i + 1;
    }
}

/// The position of the first line feed at or after `i`.
fn find_newline(v: &Vec<char>, i: usize) -> (k: usize)
    requires
        i <= v.len(),
    ensures
        k == first_newline(v@, i as int),
        i <= k <= v.len(),
{
    let mut k = i;
    while k < v.len() && v[k] != '\n'
        invariant
            i <= k <= v.len(),
            first_newline(v@, i as int) == first_newline(v@, k as int),
        decreases v.len() - k,
    {
        k = k + 1;
    }
    proof {
        lemma_first_newline_bounds(v@, i as int);
    }
    k
}

proof fn lemma_indent_each_cons(line: Seq<char>, rest: Seq<Seq<char>>)
    ensures
        indent_each(seq![line] + rest) == "  "@ + line + "\n"@ + indent_each(rest),
{
    assert((seq![line] + rest).drop_first() =~= rest);
}

/// Appends each line of `text`, indented by two spaces and ended by a line feed.
pub(crate) fn push_indented(out: &mut String, text: &Vec<char>)
    ensures
        final(out)@ == old(out)@ + indent_each(text_lines(text@)),
{
    let mut p: usize = 0;
    while p < text.len()
        invariant
            p <= text.len(),
            old(out)@ + indent_each(text_lines(text@)) == out@ + indent_each(lines_from(text@, p as int)),
        decreases text.len() - p,
    {
        let k = find_newline(text, p);
        out.append("  ");
        if k < text.len() {
            let end = if k > p && text[k - 1] == '\r' { k - 1 } else { k };
            push_chars(out, text, p, end);
            out.append("\n");
            proof {
                let raw = text@.subrange(p as int, k as int);
                assert(strip_cr(raw) =~= text@.subrange(p as int, end as int));
                lemma_indent_each_cons(strip_cr(raw), lines_from(text@, k + 1));
            }
            p = k + 1;
        } else {
            push_chars(out, text, p, k);
            out.append("\n");
            proof {
                lemma_indent_each_cons(text@.subrange(p as int, text@.len() as int), lines_from(text@, text@.len() as int));
            }
            p = k;
        }
    }
}

/// Whether two texts hold the same characters.
pub fn same_text(a: &str, b: &str) -> (r: bool)
    ensures
        r == (a@ == b@),
{
    let x = chars_of(a);
    let y = chars_of(b);
    if x.len() != y.len() {
        return false;
    }
    let mut i: usize = 0;
    while i < x.len()
        invariant
            x.len() == y.len(),
            x@ == a@,
            y@ == b@,
            i <= x.len(),
            forall|j: int| 0 <= j < i ==> x@[j] == y@[j],
        decreases x.len() - i,
    {
        if x[i] != y[i] {
            return false;
        }
        i = i + 1;
    }
    proof {
        assert(x@ =~= y@);
    }
    true
}


/// Reading digits is unaffected by characters appended after them.
proof fn lemma_digits_value_prefix(t: Seq<char>, c: char, q: int)
    requires
        0 <= q <= t.len(),
    ensures
        digits_value(t.push(c), 0, q) == digits_value(t, 0, q),
    decreases q,
{
    if q > 0 {
        lemma_digits_value_prefix(t, c, q - 1);
        assert(t.push(c)[q - 1] == t[q - 1]);
    }
}

/// `decimal_nat(n)` is the decimal numeral of `n`: a non-empty run of the digits
/// `0`..`9`, with no leading zero unless `n` is zero, whose value, read back as the
/// parser reads an integer literal, is `n`.
pub proof fn law_decimal_nat_is_numeral(n: nat)
    ensures
        decimal_nat(n).len() >= 1,
        forall|i: int| 0 <= i < decimal_nat(n).len() ==> '0' <= #[trigger] decimal_nat(n)[i] && decimal_nat(n)[i] <= '9',
        decimal_nat(n)[0] == '0' ==> n == 0,
        digits_value(decimal_nat(n), 0, decimal_nat(n).len() as int) == n,
    decreases n,
{
    if n < 10 {
        let c = digit_char(n as int);
        assert((c as int) == 48 + n);
        assert(digits_value(decimal_nat(n), 0, 0) == 0);
    } else {
        let m = n / 10;
        law_decimal_nat_is_numeral(m);
        let t = decimal_nat(m);
        let c = digit_char((n % 10) as int);
        assert((c as int) == 48 + n % 10);
        let s2 = t.push(c);
        assert(decimal_nat(n) == s2);
        lemma_digits_value_prefix(t, c, t.len() as int);
        assert(digits_value(s2, 0, s2.len() as int) == digits_value(s2, 0, t.len() as int) * 10 + ((s2[t.len() as int] as int - 48) as nat));
        assert(n == m * 10 + n % 10);
        assert forall|i: int| 0 <= i < s2.len() implies '0' <= #[trigger] s2[i] && s2[i] <= '9' by {
            if i < t.len() {
                assert(s2[i] == t[i]);
            }
        }
        assert(s2[0] == t[0]);
    }
}


/// `decimal_int(v)` is the decimal numeral of `v`: for a value that is not
/// negative, the numeral of `v`; for a negative one, `-` followed by digits `0`..`9`
/// with no leading zero whose value, read back, is `-v`.
pub proof fn law_decimal_int_is_numeral(v: int)
    ensures
        v >= 0 ==> decimal_int(v) == decimal_nat(v as nat) && digits_value(decimal_int(v), 0, decimal_int(v).len() as int)
            == v,
        v < 0 ==> {
            &&& decimal_int(v).len() >= 2
            &&& decimal_int(v)[0] == '-'
            &&& decimal_int(v)[1] != '0'
            &&& forall|i: int| 1 <= i < decimal_int(v).len() ==> '0' <= #[trigger] decimal_int(v)[i] && decimal_int(v)[i] <= '9'
            &&& digits_value(decimal_int(v), 1, decimal_int(v).len() as int) == -v
        },
{
    if v >= 0 {
        law_decimal_nat_is_numeral(v as nat);
    } else {
        let t = decimal_nat((-v) as nat);
        law_decimal_nat_is_numeral((-v) as nat);
        let s2 = seq!['-'] + t;
        assert(decimal_int(v) == s2);
        crate::parser::lemma_digits_shift(seq!['-'], t, 0, t.len() as int);
        assert forall|i: int| 1 <= i < s2.len() implies '0' <= #[trigger] s2[i] && s2[i] <= '9' by {
            assert(s2[i] == t[i - 1]);
        }
        assert(s2[1] == t[0]);
    }
}

} // verus!
