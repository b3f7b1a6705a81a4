//! Texts: what trimming, ordering, cutting and numbers in text come to.
use vstd::prelude::*;

use crate::text;

verus! {

/// White space is what Unicode calls so: the tab to the carriage return, the space, the next-line
/// and no-break characters, and the spaces and separators of the general punctuation.
pub proof fn white_space_is_what_unicode_calls_so(c: char)
    ensures
        text::is_white(c) <==> (c == '\t' || c == '\n' || c == '\u{b}' || c == '\u{c}' || c == '\r'
            || c == ' ' || c == '\u{85}' || c == '\u{a0}' || c == '\u{1680}' || ('\u{2000}' <= c
            && c <= '\u{200a}') || c == '\u{2028}' || c == '\u{2029}' || c == '\u{202f}' || c
            == '\u{205f}' || c == '\u{3000}'),
{
}

/// A text is blank where it holds nothing but white space; the empty text is.
pub proof fn blank_texts_hold_white_space_alone(s: Seq<char>)
    ensures
        text::is_blank(s) <==> forall|i: int| 0 <= i < s.len() ==> text::is_white(#[trigger] s[i]),
        s.len() == 0 ==> text::is_blank(s),
        text::is_blank(s) <==> text::trimmed(s).len() == 0,
{
    text::lemma_trimmed_empty(s);
}

/// Trimming takes white space from both ends and nothing else: what is left is a part of the text
/// with white space alone around it and none at its own ends.
pub proof fn trimming_takes_white_space_alone(s: Seq<char>) -> (ends: (int, int))
    ensures
        0 <= ends.0 <= ends.1 <= s.len(),
        text::trimmed(s) == s.subrange(ends.0, ends.1),
        forall|i: int| 0 <= i < ends.0 ==> text::is_white(#[trigger] s[i]),
        forall|i: int| ends.1 <= i < s.len() ==> text::is_white(#[trigger] s[i]),
        ends.0 < ends.1 ==> !text::is_white(s[ends.0]) && !text::is_white(s[ends.1 - 1]),
{
    let t = text::trim_front(s);
    text::lemma_trim_front(s);
    text::lemma_trim_back(t);
    let r = text::trim_back(t);
    let a = s.len() - t.len();
    let b = a + r.len();
    assert(r =~= s.subrange(a, b)) by {
        assert(r == t.take(r.len() as int));
    }
    assert forall|i: int| b <= i < s.len() implies text::is_white(#[trigger] s[i]) by {
        assert(t[i - a] == s[i]);
    }
    if a < b {
        assert(r[0] == t[0]);
        assert(t[0] == s[a]);
        assert(r.last() == s[b - 1]);
    }
    (a, b)
}

/// Texts are ordered letter by letter: the first that differ decide, by their code points, and
/// where none do, the shorter text comes first.
pub proof fn texts_are_ordered_letter_by_letter(a: Seq<char>, b: Seq<char>, k: int)
    requires
        0 <= k <= a.len(),
        k <= b.len(),
        forall|i: int| 0 <= i < k ==> #[trigger] a[i] == b[i],
        k < a.len() && k < b.len() ==> a[k] != b[k],
        k == a.len() || k == b.len() || a[k] != b[k],
    ensures
        text::text_before(a, b) <==> if k < a.len() && k < b.len() {
            (a[k] as int) < (b[k] as int)
        } else {
            a.len() < b.len()
        },
    decreases k,
{
    if k > 0 {
        assert(a[0] == b[0]);
        let x = a.drop_first();
        let y = b.drop_first();
        assert forall|i: int| 0 <= i < k - 1 implies #[trigger] x[i] == y[i] by {
            assert(x[i] == a[i + 1] && y[i] == b[i + 1]);
        }
        texts_are_ordered_letter_by_letter(x, y, k - 1);
        if k < a.len() && k < b.len() {
            assert(x[k - 1] == a[k] && y[k - 1] == b[k]);
        }
    }
}

/// What is left of a text without the repetitions of a suffix does not end with it, and the text is
/// that with the suffix behind it some times over.
pub proof fn suffixes_are_taken_off_to_the_last(s: Seq<char>, suffix: Seq<char>)
    requires
        suffix.len() > 0,
    ensures
        ({
            let left = text::without_suffixes(s, suffix);
            &&& left.len() <= s.len()
            &&& left == s.take(left.len() as int)
            &&& !suffix.is_suffix_of(left)
            &&& (s.len() - left.len()) % (suffix.len() as int) == 0
            &&& forall|i: int|
                left.len() <= i < s.len() ==> #[trigger] s[i] == suffix[(i - left.len())
                    % (suffix.len() as int)]
            &&& text::without_suffixes(s + suffix, suffix) == left
        }),
    decreases s.len(),
{
    let n = suffix.len() as int;
    let all = s + suffix;
    assert(all.skip(all.len() - n) =~= suffix);
    assert(all.take(all.len() - n) =~= s);
    if s.len() >= n && s.skip(s.len() - n) == suffix {
        let rest = s.take(s.len() - n);
        suffixes_are_taken_off_to_the_last(rest, suffix);
        let left = text::without_suffixes(s, suffix);
        assert(left =~= s.take(left.len() as int));
        assert(((rest.len() - left.len()) + n) % n == 0) by (nonlinear_arith)
            requires
                (rest.len() - left.len()) % n == 0,
                n > 0,
        ;
        assert forall|i: int| left.len() <= i < s.len() implies #[trigger] s[i] == suffix[(i
            - left.len()) % n] by {
            if i < rest.len() {
                assert(rest[i] == s[i]);
            } else {
                let j = i - rest.len();
                assert(s[i] == s.skip(s.len() - n)[j]);
                let d = rest.len() - left.len();
                assert((d + j) % n == j) by (nonlinear_arith)
                    requires
                        d % n == 0,
                        0 <= j < n,
                {
                    vstd::arithmetic::div_mod::lemma_fundamental_div_mod(d, n);
                    vstd::arithmetic::div_mod::lemma_mod_multiples_vanish(d / n, j, n);
                    vstd::arithmetic::div_mod::lemma_small_mod(j as nat, n as nat);
                }
            }
        }
    } else {
        assert(s.take(s.len() as int) =~= s);
        if suffix.is_suffix_of(s) {
            assert(s.skip(s.len() - n) =~= suffix);
        }
    }
}

/// A prefix is taken off exactly where the text begins with it.
pub proof fn prefixes_are_taken_off(s: Seq<char>, prefix: Seq<char>)
    ensures
        text::after_prefix(prefix + s, prefix) == Some(s),
        text::after_prefix(s, prefix) is Some <==> prefix.is_prefix_of(s),
        text::after_prefix(s, prefix) is Some ==> prefix + text::after_prefix(s, prefix)->0 == s,
{
    let all = prefix + s;
    assert(all.take(prefix.len() as int) =~= prefix);
    assert(all.skip(prefix.len() as int) =~= s);
    assert(all.subrange(0, prefix.len() as int) =~= prefix);
    if text::after_prefix(s, prefix) is Some {
        assert(prefix + text::after_prefix(s, prefix)->0 =~= s);
    }
}

/// The number that decimal or hexadecimal digits stand for.
pub open spec fn number_in(s: Seq<char>, base: nat) -> nat
    decreases s.len(),
{
    if s.len() == 0 {
        0
    } else {
        let c = s.last();
        let d = if '0' <= c && c <= '9' {
            (c as int - '0' as int) as nat
        } else {
            (c as int - 'a' as int + 10) as nat
        };
        number_in(s.drop_last(), base) * base + d
    }
}

/// A number in decimal reads back as itself: it is made of decimal digits, with no zero in front of
/// others.
pub proof fn decimal_numbers_read_back(n: nat)
    ensures
        number_in(text::decimal_text(n), 10) == n,
        text::decimal_text(n).len() > 0,
        forall|i: int|
            0 <= i < text::decimal_text(n).len() ==> '0' <= #[trigger] text::decimal_text(n)[i] <= '9',
        text::decimal_text(n).len() > 1 ==> text::decimal_text(n)[0] != '0',
    decreases n,
{
    let s = text::decimal_text(n);
    let d = n % 10;
    assert(text::digit_char(d) as int == '0' as int + d);
    if n < 10 {
        assert(s.drop_last() =~= Seq::<char>::empty());
        assert(number_in(s.drop_last(), 10) == 0);
    } else {
        decimal_numbers_read_back(n / 10);
        let front = text::decimal_text(n / 10);
        assert(s.drop_last() =~= front);
        assert(s[0] == front[0]);
        if front.len() == 1 {
            assert(n / 10 > 0);
            assert(front.drop_last() =~= Seq::<char>::empty());
            assert(front.last() == front[0]);
            assert(number_in(front.drop_last(), 10) == 0);
        }
    }
}

/// Sixteen to a power.
pub open spec fn sixteen_to(width: nat) -> nat
    decreases width,
{
    if width == 0 {
        1
    } else {
        16 * sixteen_to((width - 1) as nat)
    }
}

/// A number in hexadecimal of a given width has that many digits, in lower case, and reads back as
/// itself where it fits.
pub proof fn hexadecimal_numbers_read_back(n: nat, width: nat)
    ensures
        text::hex_text(n, width).len() == width,
        forall|i: int|
            0 <= i < width ==> ('0' <= #[trigger] text::hex_text(n, width)[i] <= '9' || 'a'
                <= text::hex_text(n, width)[i] <= 'f'),
        n < sixteen_to(width) ==> number_in(text::hex_text(n, width), 16) == n,
    decreases width,
{
    if width > 0 {
        let s = text::hex_text(n, width);
        let d = n % 16;
        assert(d < 10 ==> text::digit_char(d) as int == '0' as int + d);
        assert(d >= 10 ==> text::digit_char(d) as int == 'a' as int + (d - 10));
        hexadecimal_numbers_read_back(n / 16, (width - 1) as nat);
        assert(s.drop_last() =~= text::hex_text(n / 16, (width - 1) as nat));
    }
}

/// Texts are joined one by one, with the separator before each but the first.
pub proof fn texts_are_joined_one_by_one(
    parts: Seq<Seq<char>>,
    next: Seq<char>,
    separator: Seq<char>,
)
    ensures
        text::joined(Seq::empty(), separator).len() == 0,
        parts.len() == 0 ==> text::joined(parts.push(next), separator) == next,
        parts.len() > 0 ==> text::joined(parts.push(next), separator) == text::joined(
            parts,
            separator,
        ) + separator + next,
{
    assert(parts.push(next).drop_last() =~= parts);
}

} // verus!
