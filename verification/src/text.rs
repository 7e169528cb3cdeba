//! Decimal numerals and whitespace-separated words of text.
use vstd::prelude::*;
use vstd::string::StrSliceExecFns;

verus! {

/// The decimal digit character for `d` in `0..10`.
pub open spec fn digit_char(d: int) -> char {
    if d == 0 {
        '0'
    } else if d == 1 {
        '1'
    } else if d == 2 {
        '2'
    } else if d == 3 {
        '3'
    } else if d == 4 {
        '4'
    } else if d == 5 {
        '5'
    } else if d == 6 {
        '6'
    } else if d == 7 {
        '7'
    } else if d == 8 {
        '8'
    } else {
        '9'
    }
}

/// `n` written in decimal, without leading zeros.
pub open spec fn decimal(n: nat) -> Seq<char>
    decreases n,
{
    if n < 10 {
        seq![digit_char(n as int)]
    } else {
        decimal(n / 10).push(digit_char((n % 10) as int))
    }
}

/// `c` is one of the ten decimal digits.
pub open spec fn is_digit(c: char) -> bool {
    '0' <= c && c <= '9'
}

/// The value of a decimal digit character.
pub open spec fn digit_value(c: char) -> int {
    c as int - '0' as int
}

/// Every character of `s` is a decimal digit.
pub open spec fn all_digits(s: Seq<char>) -> bool {
    forall|i: int| 0 <= i < s.len() ==> is_digit(#[trigger] s[i])
}

/// The number spelled by a run of decimal digits, leading zeros allowed.
pub open spec fn digits_value(s: Seq<char>) -> nat
    decreases s.len(),
{
    if s.len() == 0 {
        0
    } else {
        (digits_value(s.drop_last()) * 10 + digit_value(s.last())) as nat
    }
}

/// The digits of an unsigned numeral: a leading `+` is allowed and dropped.
pub open spec fn unsigned_digits(s: Seq<char>) -> Seq<char> {
    if s.len() > 0 && s[0] == '+' {
        s.drop_first()
    } else {
        s
    }
}

/// What an unsigned numeral of at most `max` means: `None` for an empty
/// numeral, a character that is not a digit, or a value above `max`.
pub open spec fn numeral_value(s: Seq<char>, max: nat) -> Option<nat> {
    let d = unsigned_digits(s);
    if d.len() > 0 && all_digits(d) && digits_value(d) <= max {
        Some(digits_value(d))
    } else {
        None
    }
}

/// A whitespace character in the Unicode sense.
pub open spec fn is_space(c: char) -> bool {
    ||| '\u{9}' <= c && c <= '\u{d}'
    ||| c == ' '
    ||| c == '\u{85}'
    ||| c == '\u{a0}'
    ||| c == '\u{1680}'
    ||| '\u{2000}' <= c && c <= '\u{200a}'
    ||| c == '\u{2028}'
    ||| c == '\u{2029}'
    ||| c == '\u{202f}'
    ||| c == '\u{205f}'
    ||| c == '\u{3000}'
}

/// The maximal runs of non-whitespace characters of `s`, in order.
pub open spec fn tokens(s: Seq<char>) -> Seq<Seq<char>>
    decreases s.len(),
{
    if s.len() == 0 {
        Seq::empty()
    } else {
        let prev = tokens(s.drop_last());
        let c = s.last();
        if is_space(c) {
            prev
        } else if s.len() >= 2 && !is_space(s[s.len() - 2]) {
            prev.update(prev.len() - 1, prev.last().push(c))
        } else {
            prev.push(seq![c])
        }
    }
}

/// `s` without whitespace at its end.
pub open spec fn trim_end_text(s: Seq<char>) -> Seq<char>
    decreases s.len(),
{
    if s.len() > 0 && is_space(s.last()) {
        trim_end_text(s.drop_last())
    } else {
        s
    }
}

/// `s` without whitespace at its start.
pub open spec fn trim_start_text(s: Seq<char>) -> Seq<char>
    decreases s.len(),
{
    if s.len() > 0 && is_space(s[0]) {
        trim_start_text(s.drop_first())
    } else {
        s
    }
}

/// `s` without whitespace at either end.
pub open spec fn trim_text(s: Seq<char>) -> Seq<char> {
    trim_start_text(trim_end_text(s))
}

/// The one-character text of a decimal digit.
fn digit_str(d: u64) -> (s: &'static str)
    requires
        d < 10,
    ensures
        s@ == seq![digit_char(d as int)],
{
    proof {
        reveal_strlit("0");
        reveal_strlit("1");
        reveal_strlit("2");
        reveal_strlit("3");
        reveal_strlit("4");
        reveal_strlit("5");
        reveal_strlit("6");
        reveal_strlit("7");
        reveal_strlit("8");
        reveal_strlit("9");
    }
    if d == 0 {
        "0"
    } else if d == 1 {
        "1"
    } else if d == 2 {
        "2"
    } else if d == 3 {
        "3"
    } else if d == 4 {
        "4"
    } else if d == 5 {
        "5"
    } else if d == 6 {
        "6"
    } else if d == 7 {
        "7"
    } else if d == 8 {
        "8"
    } else {
        "9"
    }
}

/// Appends `n` in decimal.
pub fn push_decimal(out: &mut String, n: u64)
    ensures
        final(out)@ == old(out)@ + decimal(n as nat),
    decreases n,
{
    if n >= 10 {
        push_decimal(out, n / 10);
    }
    out.append(digit_str(n % 10));
    assert(final(out)@ =~= old(out)@ + decimal(n as nat));
}

/// `n` in decimal.
pub fn decimal_text(n: u64) -> (s: String)
    ensures
        s@ == decimal(n as nat),
{
    let mut s = String::new();
    push_decimal(&mut s, n);
    assert(s@ =~= decimal(n as nat));
    s
}

/// Appending a digit never makes a numeral smaller.
proof fn lemma_digits_value_push(t: Seq<char>, c: char)
    requires
        is_digit(c),
    ensures
        digits_value(t.push(c)) == digits_value(t) * 10 + digit_value(c),
        digits_value(t.push(c)) >= digits_value(t),
{
    assert(t.push(c).drop_last() =~= t);
}

/// The value of an unsigned numeral of at most `max`, read as `str::parse`
/// reads one: an optional `+`, then one or more decimal digits.
pub fn parse_numeral(s: &str, max: u64) -> (r: Option<u64>)
    ensures
        match r {
            Some(v) => numeral_value(s@, max as nat) == Some(v as nat),
            None => numeral_value(s@, max as nat) is None,
        },
{
    let n = s.unicode_len();
    let mut start: usize = 0;
    if n > 0 && s.get_char(0) == '+' {
        start = 1;
    }
    let ghost d = unsigned_digits(s@);
    assert(d =~= s@.subrange(start as int, n as int));
    if start >= n {
        return None;
    }
    let mut i: usize = start;
    let mut value: u64 = 0;
    let mut too_big = false;
    while i < n
        invariant
            n == s@.len(),
            start <= i <= n,
            d == s@.subrange(start as int, n as int),
            d == unsigned_digits(s@),
            all_digits(s@.subrange(start as int, i as int)),
            too_big ==> digits_value(s@.subrange(start as int, i as int)) > max,
            !too_big ==> value == digits_value(s@.subrange(start as int, i as int)) && value <= max,
        decreases n - i,
    {
        let c = s.get_char(i);
        if c < '0' || c > '9' {
            assert(d[i - start] == c);
            assert(!is_digit(d[i - start]));
            return None;
        }
        let ghost prefix = s@.subrange(start as int, i as int);
        assert(s@.subrange(start as int, i + 1) =~= prefix.push(c));
        proof {
            lemma_digits_value_push(prefix, c);
        }
        let dv = (c as u32 - '0' as u32) as u64;
        assert(dv == digit_value(c));
        if !too_big {
            if dv > max || value > (max - dv) / 10 {
                assert(value * 10 + dv > max) by (nonlinear_arith)
                    requires
                        dv > max || value > (max - dv) / 10,
                        dv <= 9,
                ;
                too_big = true;
            } else {
                assert(value * 10 + dv <= max) by (nonlinear_arith)
                    requires
                        dv <= max,
                        value <= (max - dv) / 10,
                ;
                value = value * 10 + dv;
            }
        }
        i += 1;
    }
    assert(s@.subrange(start as int, n as int) =~= d);
    if too_big {
        None
    } else {
        Some(value)
    }
}

/// Whether `c` is whitespace in the Unicode sense.
pub fn char_is_space(c: char) -> (b: bool)
    ensures
        b == is_space(c),
{
    ('\u{9}' <= c && c <= '\u{d}') || c == ' ' || c == '\u{85}' || c == '\u{a0}' || c == '\u{1680}'
        || ('\u{2000}' <= c && c <= '\u{200a}') || c == '\u{2028}' || c == '\u{2029}' || c == '\u{202f}'
        || c == '\u{205f}' || c == '\u{3000}'
}

/// One more character extends the words of a text as `tokens` says.
proof fn lemma_tokens_push(s: Seq<char>, i: int)
    requires
        0 <= i < s.len(),
    ensures
        tokens(s.take(i + 1)) == ({
            let prev = tokens(s.take(i));
            let c = s[i];
            if is_space(c) {
                prev
            } else if i >= 1 && !is_space(s[i - 1]) {
                prev.update(prev.len() - 1, prev.last().push(c))
            } else {
                prev.push(seq![c])
            }
        }),
{
    assert(s.take(i + 1).drop_last() =~= s.take(i));
}

/// The whitespace-separated words of `s`, in order, as `str::split_whitespace`
/// yields them.
pub fn split_tokens(s: &str) -> (r: Vec<&str>)
    ensures
        r@.len() == tokens(s@).len(),
        forall|k: int| 0 <= k < r@.len() ==> (#[trigger] r@[k])@ == tokens(s@)[k],
{
    let n = s.unicode_len();
    let mut out: Vec<&str> = Vec::new();
    let mut start: usize = 0;
    let mut in_word = false;
    let mut i: usize = 0;
    while i < n
        invariant
            n == s@.len(),
            i <= n,
            start <= i,
            in_word ==> {
                &&& start < i
                &&& !is_space(s@[i - 1])
                &&& tokens(s@.take(i as int)).len() >= 1
                &&& tokens(s@.take(i as int)).last() == s@.subrange(start as int, i as int)
                &&& out@.len() + 1 == tokens(s@.take(i as int)).len()
            },
            !in_word ==> {
                &&& (i == 0 || is_space(s@[i - 1]))
                &&& out@.len() == tokens(s@.take(i as int)).len()
            },
            forall|k: int| 0 <= k < out@.len() ==> (#[trigger] out@[k])@ == tokens(s@.take(i as int))[k],
        decreases n - i,
    {
        let c = s.get_char(i);
        let ghost prev = tokens(s@.take(i as int));
        proof {
            lemma_tokens_push(s@, i as int);
        }
        if char_is_space(c) {
            if in_word {
                let word = s.substring_char(start, i);
                out.push(word);
                in_word = false;
            }
        } else if !in_word {
            start = i;
            in_word = true;
            assert(s@.subrange(i as int, i + 1) =~= seq![c]);
        } else {
            assert(s@.subrange(start as int, i + 1) =~= s@.subrange(start as int, i as int).push(c));
        }
        i += 1;
    }
    if in_word {
        let word = s.substring_char(start, n);
        out.push(word);
    }
    assert(s@.take(n as int) =~= s@);
    out
}

/// `s` without whitespace at its end, as `str::trim_end` gives it.
pub fn trim_end(s: &str) -> (r: &str)
    ensures
        r@ == trim_end_text(s@),
{
    let mut end = s.unicode_len();
    assert(s@.take(end as int) =~= s@);
    while end > 0 && char_is_space(s.get_char(end - 1))
        invariant
            end <= s@.len(),
            trim_end_text(s@) == trim_end_text(s@.take(end as int)),
        decreases end,
    {
        assert(s@.take(end as int).drop_last() =~= s@.take(end - 1));
        end -= 1;
    }
    assert(s@.take(end as int) =~= s@.subrange(0, end as int));
    s.substring_char(0, end)
}

/// `s` without whitespace at its start, as `str::trim_start` gives it.
pub fn trim_start(s: &str) -> (r: &str)
    ensures
        r@ == trim_start_text(s@),
{
    let n = s.unicode_len();
    let mut begin: usize = 0;
    assert(s@.skip(0) =~= s@);
    while begin < n && char_is_space(s.get_char(begin))
        invariant
            n == s@.len(),
            begin <= n,
            trim_start_text(s@) == trim_start_text(s@.skip(begin as int)),
        decreases n - begin,
    {
        assert(s@.skip(begin as int).drop_first() =~= s@.skip(begin + 1));
        begin += 1;
    }
    assert(s@.skip(begin as int) =~= s@.subrange(begin as int, n as int));
    s.substring_char(begin, n)
}

/// `s` without whitespace at either end, as `str::trim` gives it.
pub fn trim(s: &str) -> (r: &str)
    ensures
        r@ == trim_text(s@),
{
    trim_start(trim_end(s))
}

/// Decimal digits are digits, and read back as their value.
proof fn lemma_digit_char(d: int)
    requires
        0 <= d < 10,
    ensures
        is_digit(digit_char(d)),
        digit_value(digit_char(d)) == d,
{
}

/// The decimal text of a number is a run of digits that reads back as it.
pub proof fn lemma_decimal_digits(n: nat)
    ensures
        decimal(n).len() > 0,
        all_digits(decimal(n)),
        digits_value(decimal(n)) == n,
    decreases n,
{
    if n < 10 {
        lemma_digit_char(n as int);
        assert(decimal(n) =~= Seq::<char>::empty().push(digit_char(n as int)));
        lemma_digits_value_push(Seq::<char>::empty(), digit_char(n as int));
        assert(digits_value(Seq::<char>::empty()) == 0);
    } else {
        lemma_decimal_digits(n / 10);
        lemma_digit_char((n % 10) as int);
        lemma_digits_value_push(decimal(n / 10), digit_char((n % 10) as int));
        assert((n / 10) * 10 + n % 10 == n) by (nonlinear_arith);
    }
}

/// Reading back a written number gives the number, for every bound it fits.
pub proof fn lemma_numeral_roundtrip(n: nat, max: nat)
    requires
        n <= max,
    ensures
        numeral_value(decimal(n), max) == Some(n),
{
    lemma_decimal_digits(n);
    assert(is_digit(decimal(n)[0]));
    assert(unsigned_digits(decimal(n)) == decimal(n));
}

/// The pieces of `s` between newlines, in order: one more than the newlines.
pub open spec fn segments(s: Seq<char>) -> Seq<Seq<char>>
    decreases s.len(),
{
    if s.len() == 0 {
        seq![Seq::empty()]
    } else {
        let prev = segments(s.drop_last());
        if s.last() == '\n' {
            prev.push(Seq::empty())
        } else {
            prev.update(prev.len() - 1, prev.last().push(s.last()))
        }
    }
}

proof fn lemma_segments_len(s: Seq<char>)
    ensures
        segments(s).len() >= 1,
    decreases s.len(),
{
    if s.len() > 0 {
        lemma_segments_len(s.drop_last());
    }
}

/// The pieces of `s` between newlines. Each reader of lines here trims them,
/// so a carriage return before a newline, and the empty piece after a final
/// newline, read as `str::lines` would have them read.
pub fn split_lines(s: &str) -> (r: Vec<&str>)
    ensures
        r@.len() == segments(s@).len(),
        forall|k: int| 0 <= k < r@.len() ==> (#[trigger] r@[k])@ == segments(s@)[k],
{
    let n = s.unicode_len();
    let mut out: Vec<&str> = Vec::new();
    let mut start: usize = 0;
    let mut i: usize = 0;
    assert(s@.take(0) =~= Seq::<char>::empty());
    while i < n
        invariant
            n == s@.len(),
            start <= i <= n,
            out@.len() + 1 == segments(s@.take(i as int)).len(),
            segments(s@.take(i as int)).last() == s@.subrange(start as int, i as int),
            forall|k: int| 0 <= k < out@.len() ==> (#[trigger] out@[k])@ == segments(s@.take(i as int))[k],
        decreases n - i,
    {
        let c = s.get_char(i);
        assert(s@.take(i + 1).drop_last() =~= s@.take(i as int));
        proof {
            lemma_segments_len(s@.take(i as int));
        }
        if c == '\n' {
            out.push(s.substring_char(start, i));
            start = i + 1;
            assert(s@.subrange(start as int, i + 1) =~= Seq::<char>::empty());
        } else {
            assert(s@.subrange(start as int, i + 1) =~= s@.subrange(start as int, i as int).push(c));
        }
        i += 1;
    }
    out.push(s.substring_char(start, n));
    assert(s@.take(n as int) =~= s@);
    out
}

/// No character of `s` is whitespace.
pub open spec fn no_space(s: Seq<char>) -> bool {
    forall|i: int| 0 <= i < s.len() ==> !is_space(#[trigger] s[i])
}

/// Whitespace after a text adds no word.
pub proof fn lemma_tokens_space(s: Seq<char>, c: char)
    requires
        is_space(c),
    ensures
        tokens(s.push(c)) == tokens(s),
{
    assert(s.push(c).drop_last() =~= s);
}

/// A word after whitespace (or at the start) is one more word.
pub proof fn lemma_tokens_word(s: Seq<char>, w: Seq<char>)
    requires
        w.len() > 0,
        no_space(w),
        s.len() == 0 || is_space(s.last()),
    ensures
        tokens(s + w) == tokens(s).push(w),
    decreases w.len(),
{
    let c = w.last();
    let w1 = w.drop_last();
    assert((s + w).drop_last() =~= s + w1);
    assert((s + w).last() == c);
    if w1.len() == 0 {
        assert(s + w1 =~= s);
        assert(seq![c] =~= w);
    } else {
        assert(no_space(w1)) by {
            assert forall|i: int| 0 <= i < w1.len() implies !is_space(#[trigger] w1[i]) by {
                assert(w1[i] == w[i]);
            }
        }
        lemma_tokens_word(s, w1);
        assert((s + w)[(s + w).len() - 2] == w1.last());
        assert(w1.push(c) =~= w);
    }
}

/// Words of a line joined by single spaces.
pub open spec fn spaced(words: Seq<Seq<char>>) -> Seq<char>
    decreases words.len(),
{
    if words.len() == 0 {
        Seq::empty()
    } else if words.len() == 1 {
        words[0]
    } else {
        spaced(words.drop_last()) + " "@ + words.last()
    }
}

/// Non-empty words without whitespace, joined by single spaces, split back
/// into the same words.
pub proof fn lemma_tokens_spaced(words: Seq<Seq<char>>)
    requires
        forall|i: int| 0 <= i < words.len() ==> (#[trigger] words[i]).len() > 0 && no_space(words[i]),
    ensures
        tokens(spaced(words)) == words,
    decreases words.len(),
{
    reveal_strlit(" ");
    if words.len() == 0 {
    } else if words.len() == 1 {
        lemma_tokens_word(Seq::empty(), words[0]);
        assert(Seq::<char>::empty() + words[0] =~= words[0]);
        assert(Seq::<Seq<char>>::empty().push(words[0]) =~= words);
    } else {
        let front = words.drop_last();
        lemma_tokens_spaced(front);
        let head = spaced(front);
        assert(head + " "@ =~= head.push(' '));
        lemma_tokens_space(head, ' ');
        lemma_tokens_word(head.push(' '), words.last());
        assert(front.push(words.last()) =~= words);
    }
}

/// A text that neither begins nor ends with whitespace is its own trim.
pub proof fn lemma_trim_plain(s: Seq<char>)
    requires
        s.len() == 0 || (!is_space(s[0]) && !is_space(s.last())),
    ensures
        trim_text(s) == s,
{
}

/// Text without a newline extends the last piece between newlines.
pub proof fn lemma_segments_extend(s: Seq<char>, w: Seq<char>)
    requires
        forall|i: int| 0 <= i < w.len() ==> #[trigger] w[i] != '\n',
    ensures
        segments(s + w) == segments(s).update(segments(s).len() - 1, segments(s).last() + w),
    decreases w.len(),
{
    lemma_segments_len(s);
    if w.len() == 0 {
        assert(s + w =~= s);
        assert(segments(s).last() + w =~= segments(s).last());
        assert(segments(s).update(segments(s).len() - 1, segments(s).last()) =~= segments(s));
    } else {
        let w1 = w.drop_last();
        lemma_segments_extend(s, w1);
        assert((s + w).drop_last() =~= s + w1);
        assert((s + w).last() == w.last());
        assert((segments(s).last() + w1).push(w.last()) =~= segments(s).last() + w);
        assert(segments(s).update(segments(s).len() - 1, segments(s).last() + w1).update(
            segments(s).len() - 1,
            segments(s).last() + w,
        ) =~= segments(s).update(segments(s).len() - 1, segments(s).last() + w));
    }
}

/// A newline starts a new, empty piece.
pub proof fn lemma_segments_newline(s: Seq<char>)
    ensures
        segments(s.push('\n')) == segments(s).push(Seq::empty()),
{
    assert(s.push('\n').drop_last() =~= s);
}

} // verus!
