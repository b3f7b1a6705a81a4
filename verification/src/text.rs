//! Text as sequences of characters: blankness, trimming, order, splitting and joining.
use vstd::prelude::*;
use vstd::string::*;

verus! {

/// Appends one character: `String::push` grows the text by exactly the character it is given.
pub assume_specification[ String::push ](s: &mut String, c: char)
    ensures
        final(s)@ == old(s)@.push(c),
;

/// The Unicode `White_Space` property.
pub open spec fn is_white(c: char) -> bool {
    let n = c as u32;
    ||| 0x9 <= n <= 0xd
    ||| n == 0x20
    ||| n == 0x85
    ||| n == 0xa0
    ||| n == 0x1680
    ||| 0x2000 <= n <= 0x200a
    ||| n == 0x2028
    ||| n == 0x2029
    ||| n == 0x202f
    ||| n == 0x205f
    ||| n == 0x3000
}

/// Whether a character is white space.
pub fn is_whitespace(c: char) -> (r: bool)
    ensures
        r == is_white(c),
{
    let n: u32 = c as u32;
    (0x9 <= n && n <= 0xd) || n == 0x20 || n == 0x85 || n == 0xa0 || n == 0x1680
        || (0x2000 <= n && n <= 0x200a) || n == 0x2028 || n == 0x2029 || n == 0x202f
        || n == 0x205f || n == 0x3000
}

/// The characters of a text, in order.
pub fn characters(text: &str) -> (r: Vec<char>)
    ensures
        r@ == text@,
{
    let mut r: Vec<char> = Vec::new();
    for c in it: text.chars()
        invariant
            it.seq() == text@,
            r@ == text@.take(it.index()),
    {
        r.push(c);
    }
    assert(text@.take(text@.len() as int) == text@);
    r
}

/// The text made of the characters at positions `from` to `to`.
pub fn text_between(chars: &Vec<char>, from: usize, to: usize) -> (r: String)
    requires
        from <= to <= chars@.len(),
    ensures
        r@ == chars@.subrange(from as int, to as int),
{
    let mut r = String::new();
    let mut i: usize = from;
    while i < to
        invariant
            from <= i <= to <= chars@.len(),
            r@ == chars@.subrange(from as int, i as int),
        decreases to - i,
    {
        r.push(chars[i]);
        assert(chars@.subrange(from as int, i + 1) == chars@.subrange(from as int, i as int).push(
            chars@[i as int],
        ));
        i = i + 1;
    }
    r
}

/// A text that holds nothing but white space.
pub open spec fn is_blank(s: Seq<char>) -> bool {
    forall|i: int| 0 <= i < s.len() ==> is_white(#[trigger] s[i])
}

/// The text without its leading white space.
pub open spec fn trim_front(s: Seq<char>) -> Seq<char>
    decreases s.len(),
{
    if s.len() > 0 && is_white(s[0]) {
        trim_front(s.drop_first())
    } else {
        s
    }
}

/// The text without its trailing white space.
pub open spec fn trim_back(s: Seq<char>) -> Seq<char>
    decreases s.len(),
{
    if s.len() > 0 && is_white(s.last()) {
        trim_back(s.drop_last())
    } else {
        s
    }
}

/// The text without the white space around it.
pub open spec fn trimmed(s: Seq<char>) -> Seq<char> {
    trim_back(trim_front(s))
}

/// Trimming leaves nothing exactly where there was nothing but white space.
pub proof fn lemma_trimmed_empty(s: Seq<char>)
    ensures
        trimmed(s).len() == 0 <==> is_blank(s),
{
    lemma_trim_front(s);
    let t = trim_front(s);
    lemma_trim_back(t);
    if is_blank(s) {
        assert(t.len() == 0) by {
            if t.len() > 0 {
                assert(t[0] == s[s.len() - t.len()]);
            }
        }
    }
    if trimmed(s).len() == 0 {
        assert(is_blank(t));
        assert(t.len() == 0) by {
            if t.len() > 0 {
                assert(is_white(t[0]));
            }
        }
    }
}

/// What is left after trimming the front is a suffix, preceded by white space alone.
pub proof fn lemma_trim_front(s: Seq<char>)
    ensures
        trim_front(s).len() <= s.len(),
        trim_front(s) == s.skip(s.len() - trim_front(s).len()),
        forall|i: int| 0 <= i < s.len() - trim_front(s).len() ==> is_white(#[trigger] s[i]),
        trim_front(s).len() > 0 ==> !is_white(trim_front(s)[0]),
    decreases s.len(),
{
    if s.len() > 0 && is_white(s[0]) {
        lemma_trim_front(s.drop_first());
        let t = trim_front(s);
        let k = s.drop_first().len() - t.len();
        assert(s.drop_first().skip(k) == s.skip(k + 1));
        assert forall|i: int| 0 <= i < s.len() - t.len() implies is_white(#[trigger] s[i]) by {
            if i > 0 {
                assert(s.drop_first()[i - 1] == s[i]);
            }
        }
    } else {
        assert(s.skip(0) == s);
    }
}

/// What is left after trimming the back is a prefix, followed by white space alone.
pub proof fn lemma_trim_back(s: Seq<char>)
    ensures
        trim_back(s).len() <= s.len(),
        trim_back(s) == s.take(trim_back(s).len() as int),
        forall|i: int| trim_back(s).len() <= i < s.len() ==> is_white(#[trigger] s[i]),
        trim_back(s).len() > 0 ==> !is_white(trim_back(s).last()),
    decreases s.len(),
{
    if s.len() > 0 && is_white(s.last()) {
        lemma_trim_back(s.drop_last());
        let n = trim_back(s).len() as int;
        assert(s.drop_last().take(n) == s.take(n));
        assert forall|i: int| n <= i < s.len() implies is_white(#[trigger] s[i]) by {
            if i < s.len() - 1 {
                assert(s.drop_last()[i] == s[i]);
            }
        }
    } else {
        assert(s.take(s.len() as int) == s);
    }
}

/// Whether a text holds nothing but white space.
pub fn blank(text: &str) -> (r: bool)
    ensures
        r == is_blank(text@),
{
    for c in it: text.chars()
        invariant
            it.seq() == text@,
            forall|i: int| 0 <= i < it.index() ==> is_white(#[trigger] text@[i]),
    {
        if !is_whitespace(c) {
            assert(text@[it.index()] == c);
            return false;
        }
    }
    true
}

/// The text without the white space around it.
pub fn trim(text: &str) -> (r: String)
    ensures
        r@ == trimmed(text@),
{
    let chars = characters(text);
    let mut from: usize = 0;
    assert(chars@.skip(0) == chars@);
    while from < chars.len() && is_whitespace(chars[from])
        invariant
            from <= chars@.len(),
            trim_front(chars@) == trim_front(chars@.skip(from as int)),
        decreases chars@.len() - from,
    {
        assert(chars@.skip(from as int).drop_first() == chars@.skip(from + 1));
        from = from + 1;
    }
    let ghost front = chars@.skip(from as int);
    let mut to: usize = chars.len();
    assert(front.take(front.len() as int) == front);
    while to > from && is_whitespace(chars[to - 1])
        invariant
            from <= to <= chars@.len(),
            front == chars@.skip(from as int),
            trim_back(front) == trim_back(front.take(to - from)),
        decreases to,
    {
        assert(front.take(to - from).drop_last() == front.take(to - from - 1));
        to = to - 1;
    }
    assert(front.take(to - from) == chars@.subrange(from as int, to as int));
    text_between(&chars, from, to)
}

/// Lexicographic order by code point.
pub open spec fn text_before(a: Seq<char>, b: Seq<char>) -> bool
    decreases a.len(),
{
    if b.len() == 0 {
        false
    } else if a.len() == 0 {
        true
    } else if a[0] == b[0] {
        text_before(a.drop_first(), b.drop_first())
    } else {
        a[0] < b[0]
    }
}

/// No text comes before itself.
pub proof fn lemma_text_irreflexive(a: Seq<char>)
    ensures
        !text_before(a, a),
    decreases a.len(),
{
    if a.len() > 0 {
        lemma_text_irreflexive(a.drop_first());
    }
}

/// The order of texts is transitive.
pub proof fn lemma_text_transitive(a: Seq<char>, b: Seq<char>, c: Seq<char>)
    requires
        text_before(a, b),
        text_before(b, c),
    ensures
        text_before(a, c),
    decreases a.len(),
{
    if a.len() > 0 && a[0] == b[0] && b[0] == c[0] {
        lemma_text_transitive(a.drop_first(), b.drop_first(), c.drop_first());
    }
}

/// Of two different texts one comes before the other.
pub proof fn lemma_text_total(a: Seq<char>, b: Seq<char>)
    ensures
        a == b || text_before(a, b) || text_before(b, a),
    decreases a.len(),
{
    if a.len() > 0 && b.len() > 0 && a[0] == b[0] {
        lemma_text_total(a.drop_first(), b.drop_first());
        if a.drop_first() == b.drop_first() {
            assert(a == seq![a[0]] + a.drop_first());
            assert(b == seq![b[0]] + b.drop_first());
        }
    } else if a.len() == 0 && b.len() == 0 {
        assert(a == b);
    }
}

/// Whether `left` comes before `right` in the order of code points.
pub fn precedes(left: &str, right: &str) -> (r: bool)
    ensures
        r == text_before(left@, right@),
{
    let a = characters(left);
    let b = characters(right);
    let mut i: usize = 0;
    assert(a@.skip(0) == a@);
    assert(b@.skip(0) == b@);
    while i < a.len() && i < b.len()
        invariant
            a@ == left@,
            b@ == right@,
            i <= a@.len(),
            i <= b@.len(),
            text_before(a@, b@) == text_before(a@.skip(i as int), b@.skip(i as int)),
        decreases a@.len() - i,
    {
        let ghost x = a@.skip(i as int);
        let ghost y = b@.skip(i as int);
        if a[i] != b[i] {
            return a[i] < b[i];
        }
        assert(x.drop_first() == a@.skip(i + 1));
        assert(y.drop_first() == b@.skip(i + 1));
        i = i + 1;
    }
    i < b.len()
}

/// Whether two texts are the same.
pub fn same(left: &str, right: &str) -> (r: bool)
    ensures
        r == (left@ == right@),
{
    let a = characters(left);
    let b = characters(right);
    if a.len() != b.len() {
        return false;
    }
    for i in 0..a.len()
        invariant
            a@ == left@,
            b@ == right@,
            a@.len() == b@.len(),
            a@.take(i as int) == b@.take(i as int),
    {
        if a[i] != b[i] {
            return false;
        }
        assert(a@.take(i + 1) == a@.take(i as int).push(a@[i as int]));
        assert(b@.take(i + 1) == b@.take(i as int).push(b@[i as int]));
    }
    assert(a@.take(a@.len() as int) == a@);
    assert(b@.take(b@.len() as int) == b@);
    true
}

/// The first position, at or after `from`, at which `pattern` occurs.
pub open spec fn find_from(s: Seq<char>, pattern: Seq<char>, from: int) -> Option<int>
    decreases s.len() + 1 - from,
{
    if from < 0 || from + pattern.len() > s.len() {
        None
    } else if s.subrange(from, from + pattern.len()) == pattern {
        Some(from)
    } else {
        find_from(s, pattern, from + 1)
    }
}

/// The parts of a text before and after the first occurrence of `pattern`.
pub open spec fn split_at_first(s: Seq<char>, pattern: Seq<char>) -> Option<(Seq<char>, Seq<char>)> {
    match find_from(s, pattern, 0) {
        Some(at) => Some((s.take(at), s.skip(at + pattern.len()))),
        None => None,
    }
}

proof fn lemma_find(s: Seq<char>, pattern: Seq<char>, from: int, at: int)
    requires
        0 <= from <= at,
        at + pattern.len() <= s.len(),
        s.subrange(at, at + pattern.len()) == pattern,
        forall|j: int| from <= j < at ==> #[trigger] s.subrange(j, j + pattern.len()) != pattern,
    ensures
        find_from(s, pattern, from) == Some(at),
    decreases at - from,
{
    if from < at {
        lemma_find(s, pattern, from + 1, at);
    }
}

proof fn lemma_find_none(s: Seq<char>, pattern: Seq<char>, from: int)
    requires
        0 <= from,
        forall|j: int|
            from <= j <= s.len() - pattern.len() ==> #[trigger] s.subrange(j, j + pattern.len())
                != pattern,
    ensures
        find_from(s, pattern, from) is None,
    decreases s.len() + 1 - from,
{
    if from + pattern.len() <= s.len() {
        lemma_find_none(s, pattern, from + 1);
    }
}

/// A text is split behind a part in which the first letter of the pattern does not stand.
pub proof fn lemma_split_behind(left: Seq<char>, pattern: Seq<char>, right: Seq<char>)
    requires
        pattern.len() > 0,
        lacks(left, pattern[0]),
    ensures
        split_at_first(left + pattern + right, pattern) == Some((left, right)),
{
    let all = left + pattern + right;
    let at = left.len() as int;
    assert(all.subrange(at, at + pattern.len()) == pattern);
    assert forall|j: int| 0 <= j < at implies #[trigger] all.subrange(j, j + pattern.len())
        != pattern by {
        assert(all.subrange(j, j + pattern.len())[0] == left[j]);
    }
    lemma_find(all, pattern, 0, at);
    assert(all.take(at) == left);
    assert(all.skip(at + pattern.len()) == right);
}

/// A text is not split by a pattern that stands nowhere in it.
pub proof fn lemma_not_split(s: Seq<char>, pattern: Seq<char>)
    requires
        forall|j: int|
            0 <= j <= s.len() - pattern.len() ==> #[trigger] s.subrange(j, j + pattern.len())
                != pattern,
    ensures
        split_at_first(s, pattern) is None,
{
    lemma_find_none(s, pattern, 0);
}

/// A text without white space at its ends is not changed by trimming.
pub proof fn lemma_trimmed_already(s: Seq<char>)
    requires
        s.len() > 0,
        !is_white(s[0]),
        !is_white(s.last()),
    ensures
        trimmed(s) == s,
{
}

/// Whether `pattern` stands at position `at`.
fn stands_at(chars: &Vec<char>, pattern: &Vec<char>, at: usize) -> (r: bool)
    requires
        at + pattern@.len() <= chars.len(),
    ensures
        r == (chars@.subrange(at as int, at + pattern@.len()) == pattern@),
{
    for k in 0..pattern.len()
        invariant
            at + pattern@.len() <= chars.len(),
            forall|j: int| 0 <= j < k ==> chars@[at + j] == #[trigger] pattern@[j],
    {
        if chars[at + k] != pattern[k] {
            assert(chars@.subrange(at as int, at + pattern@.len())[k as int] != pattern@[k as int]);
            return false;
        }
    }
    assert(chars@.subrange(at as int, at + pattern@.len()) == pattern@);
    true
}

/// The parts of a text before and after the first occurrence of `pattern`.
pub fn split_once(text: &str, pattern: &str) -> (r: Option<(String, String)>)
    ensures
        r.deep_view() == split_at_first(text@, pattern@),
{
    let chars = characters(text);
    let wanted = characters(pattern);
    if wanted.len() > chars.len() {
        return None;
    }
    let mut at: usize = 0;
    while at <= chars.len() - wanted.len()
        invariant
            wanted@.len() <= chars@.len(),
            at <= chars@.len() - wanted@.len() + 1,
            chars@ == text@,
            wanted@ == pattern@,
            find_from(text@, pattern@, 0) == find_from(text@, pattern@, at as int),
        decreases chars@.len() - wanted@.len() + 1 - at,
    {
        if stands_at(&chars, &wanted, at) {
            let before = text_between(&chars, 0, at);
            let after = text_between(&chars, at + wanted.len(), chars.len());
            return Some((before, after));
        }
        if at == chars.len() - wanted.len() {
            proof {
                reveal_with_fuel(find_from, 2);
            }
            return None;
        }
        at = at + 1;
    }
    None
}

/// The rest of a text behind a given prefix.
pub open spec fn after_prefix(s: Seq<char>, prefix: Seq<char>) -> Option<Seq<char>> {
    if prefix.is_prefix_of(s) {
        Some(s.skip(prefix.len() as int))
    } else {
        None
    }
}

/// The rest of a text behind a given prefix.
pub fn strip_prefix(text: &str, prefix: &str) -> (r: Option<String>)
    ensures
        r.deep_view() == after_prefix(text@, prefix@),
{
    let chars = characters(text);
    let wanted = characters(prefix);
    if wanted.len() <= chars.len() && stands_at(&chars, &wanted, 0) {
        assert(prefix@.is_prefix_of(text@));
        Some(text_between(&chars, wanted.len(), chars.len()))
    } else {
        assert(!prefix@.is_prefix_of(text@)) by {
            if prefix@.is_prefix_of(text@) {
                assert(text@.subrange(0, prefix@.len() as int) == prefix@);
            }
        }
        None
    }
}

/// The text without the repetitions of `suffix` at its end.
pub open spec fn without_suffixes(s: Seq<char>, suffix: Seq<char>) -> Seq<char>
    decreases s.len(),
{
    if 0 < suffix.len() <= s.len() && s.skip(s.len() - suffix.len()) == suffix {
        without_suffixes(s.take(s.len() - suffix.len()), suffix)
    } else {
        s
    }
}

/// The text without the repetitions of `suffix` at its end.
pub fn trim_suffixes(text: &str, suffix: &str) -> (r: String)
    requires
        suffix@.len() > 0,
    ensures
        r@ == without_suffixes(text@, suffix@),
{
    let chars = characters(text);
    let wanted = characters(suffix);
    let mut to: usize = chars.len();
    assert(chars@.take(to as int) == chars@);
    while wanted.len() <= to && stands_at(&chars, &wanted, to - wanted.len())
        invariant
            to <= chars@.len(),
            wanted@ == suffix@,
            wanted@.len() > 0,
            without_suffixes(chars@, suffix@) == without_suffixes(chars@.take(to as int), suffix@),
        decreases to,
    {
        let ghost kept = chars@.take(to as int);
        assert(kept.skip(to - wanted@.len()) == chars@.subrange(to - wanted@.len(), to as int));
        assert(kept.take(to - wanted@.len()) == chars@.take(to - wanted@.len()));
        to = to - wanted.len();
    }
    proof {
        let kept = chars@.take(to as int);
        if wanted@.len() <= to {
            assert(kept.skip(to - wanted@.len()) == chars@.subrange(to - wanted@.len(), to as int));
        }
        assert(chars@.subrange(0, to as int) == kept);
    }
    text_between(&chars, 0, to)
}

/// The pieces of a text between the occurrences of `separator`; there is always at least one.
pub open spec fn pieces(s: Seq<char>, separator: char) -> Seq<Seq<char>>
    decreases s.len(),
{
    if s.len() == 0 {
        seq![Seq::empty()]
    } else {
        let init = pieces(s.drop_last(), separator);
        if s.last() == separator {
            init.push(Seq::empty())
        } else {
            init.drop_last().push(init.last().push(s.last()))
        }
    }
}

/// The pieces of a text between the occurrences of `separator`.
pub fn split(text: &str, separator: char) -> (r: Vec<String>)
    ensures
        r.deep_view() == pieces(text@, separator),
{
    let mut done: Vec<String> = Vec::new();
    let mut current = String::new();
    assert(text@.take(0) == Seq::<char>::empty());
    assert(done.deep_view().push(current@) == pieces(text@.take(0), separator));
    for c in it: text.chars()
        invariant
            it.seq() == text@,
            done.deep_view().push(current@) == pieces(text@.take(it.index()), separator),
    {
        let ghost prefix = text@.take(it.index());
        let ghost before = done.deep_view();
        let ghost init = before.push(current@);
        assert(text@.take(it.index() + 1).drop_last() == prefix);
        assert(init.drop_last() == before);
        if c == separator {
            done.push(current);
            current = String::new();
            assert(done.deep_view() == init);
        } else {
            current.push(c);
        }
    }
    assert(text@.take(text@.len() as int) == text@);
    let ghost before = done.deep_view();
    let ghost last = current@;
    done.push(current);
    assert(done.deep_view() == before.push(last));
    done
}

/// The texts in order, with `separator` between them.
pub open spec fn joined(parts: Seq<Seq<char>>, separator: Seq<char>) -> Seq<char>
    decreases parts.len(),
{
    if parts.len() == 0 {
        Seq::empty()
    } else if parts.len() == 1 {
        parts[0]
    } else {
        joined(parts.drop_last(), separator) + separator + parts.last()
    }
}

/// The texts in order, with `separator` between them.
pub fn join(parts: &Vec<String>, separator: &str) -> (r: String)
    ensures
        r@ == joined(parts.deep_view(), separator@),
{
    let mut r = String::new();
    let ghost all = parts.deep_view();
    assert(all.take(0) == Seq::<Seq<char>>::empty());
    for i in 0..parts.len()
        invariant
            all == parts.deep_view(),
            r@ == joined(all.take(i as int), separator@),
    {
        assert(all.take(i + 1).drop_last() == all.take(i as int));
        assert(all.take(i + 1).last() == parts@[i as int]@);
        if i > 0 {
            r.append(separator);
        }
        r.append(parts[i].as_str());
        assert(r@ == joined(all.take(i + 1), separator@));
    }
    assert(all.take(all.len() as int) == all);
    r
}

/// Whether a character does not occur in a text.
pub open spec fn lacks(s: Seq<char>, c: char) -> bool {
    forall|i: int| 0 <= i < s.len() ==> #[trigger] s[i] != c
}

/// There is at least one piece, and no piece holds the separator.
pub proof fn lemma_pieces_lack(s: Seq<char>, separator: char)
    ensures
        pieces(s, separator).len() > 0,
        forall|i: int|
            0 <= i < pieces(s, separator).len() ==> lacks(
                #[trigger] pieces(s, separator)[i],
                separator,
            ),
    decreases s.len(),
{
    if s.len() > 0 {
        lemma_pieces_lack(s.drop_last(), separator);
    }
}

/// What a text lacks, its pieces lack.
pub proof fn lemma_pieces_lack_too(s: Seq<char>, separator: char, c: char)
    requires
        lacks(s, c),
    ensures
        forall|i: int|
            0 <= i < pieces(s, separator).len() ==> lacks(#[trigger] pieces(s, separator)[i], c),
    decreases s.len(),
{
    if s.len() > 0 {
        let init = s.drop_last();
        assert forall|i: int| 0 <= i < init.len() implies #[trigger] init[i] != c by {
            assert(init[i] == s[i]);
        }
        assert(s[s.len() - 1] != c);
        lemma_pieces_lack(init, separator);
        lemma_pieces_lack_too(init, separator, c);
    }
}

/// What all the parts and the separator lack, the whole lacks.
pub proof fn lemma_joined_lacks(parts: Seq<Seq<char>>, separator: Seq<char>, c: char)
    requires
        lacks(separator, c),
        forall|i: int| 0 <= i < parts.len() ==> lacks(#[trigger] parts[i], c),
    ensures
        lacks(joined(parts, separator), c),
    decreases parts.len(),
{
    if parts.len() > 1 {
        let init = parts.drop_last();
        assert forall|i: int| 0 <= i < init.len() implies lacks(#[trigger] init[i], c) by {
            assert(init[i] == parts[i]);
        }
        lemma_joined_lacks(init, separator, c);
        assert(lacks(parts[parts.len() - 1], c));
    }
}

/// A text without the separator is its own only piece.
pub proof fn lemma_one_piece(s: Seq<char>, separator: char)
    requires
        lacks(s, separator),
    ensures
        pieces(s, separator) == seq![s],
    decreases s.len(),
{
    if s.len() == 0 {
        assert(s == Seq::<char>::empty());
    } else {
        let init = s.drop_last();
        assert forall|i: int| 0 <= i < init.len() implies #[trigger] init[i] != separator by {
            assert(init[i] == s[i]);
        }
        lemma_one_piece(init, separator);
        assert(s[s.len() - 1] != separator);
        assert(init.push(s.last()) == s);
    }
}

/// A separator divides the pieces before it from those behind it.
pub proof fn lemma_pieces_divide(left: Seq<char>, right: Seq<char>, separator: char)
    ensures
        pieces(left + seq![separator] + right, separator) == pieces(left, separator) + pieces(
            right,
            separator,
        ),
    decreases right.len(),
{
    let all = left + seq![separator] + right;
    if right.len() == 0 {
        assert(all.drop_last() == left);
        assert(right == Seq::<char>::empty());
    } else {
        let init = right.drop_last();
        lemma_pieces_divide(left, init, separator);
        lemma_pieces_lack(init, separator);
        assert(all.drop_last() == left + seq![separator] + init);
        let a = pieces(left, separator);
        let b = pieces(init, separator);
        assert((a + b).drop_last() == a + b.drop_last());
        assert(pieces(all, separator) =~= a + pieces(right, separator));
    }
}

/// Joining the pieces of a text gives it back.
pub proof fn lemma_join_pieces(s: Seq<char>, separator: char)
    ensures
        joined(pieces(s, separator), seq![separator]) == s,
    decreases s.len(),
{
    if s.len() == 0 {
        assert(s == Seq::<char>::empty());
    } else {
        let init = pieces(s.drop_last(), separator);
        lemma_pieces_lack(s.drop_last(), separator);
        lemma_join_pieces(s.drop_last(), separator);
        let all = pieces(s, separator);
        let between = seq![separator];
        let start = s.drop_last();
        assert(start.push(s.last()) == s);
        if s.last() == separator {
            assert(all.drop_last() == init);
            assert(joined(all, between) == start + between + Seq::<char>::empty());
        } else {
            let last = init.last().push(s.last());
            assert(all.drop_last() == init.drop_last());
            assert(all.last() == last);
            if init.len() == 1 {
                assert(joined(all, between) == last);
                assert(joined(init, between) == init.last());
            } else {
                let head = joined(init.drop_last(), between);
                assert(joined(init, between) == head + between + init.last());
                assert(joined(all, between) == head + between + last);
                assert(head + between + last == (head + between + init.last()).push(s.last()));
            }
        }
    }
}

/// Texts without the separator are the pieces of what they are joined to.
pub proof fn lemma_pieces_of_joined(parts: Seq<Seq<char>>, separator: char)
    requires
        parts.len() > 0,
        forall|i: int| 0 <= i < parts.len() ==> lacks(#[trigger] parts[i], separator),
    ensures
        pieces(joined(parts, seq![separator]), separator) == parts,
    decreases parts.len(),
{
    lemma_one_piece(parts[parts.len() - 1], separator);
    if parts.len() == 1 {
        assert(parts == seq![parts[0]]);
    } else {
        let init = parts.drop_last();
        assert forall|i: int| 0 <= i < init.len() implies lacks(#[trigger] init[i], separator) by {
            assert(init[i] == parts[i]);
        }
        lemma_pieces_of_joined(init, separator);
        lemma_pieces_divide(joined(init, seq![separator]), parts.last(), separator);
        assert(init + seq![parts.last()] == parts);
    }
}

/// Two texts, one behind the other.
pub fn concat(left: &str, right: &str) -> (r: String)
    ensures
        r@ == left@ + right@,
{
    let mut r = left.to_owned();
    r.append(right);
    r
}

/// The digit of a number below 16, in lower case.
pub open spec fn digit_char(d: nat) -> char {
    if d < 10 {
        ('0' as nat + d) as char
    } else {
        ('a' as nat + (d - 10)) as char
    }
}

/// The digit of a number below 16, in lower case.
fn digit(d: u8) -> (r: char)
    requires
        d < 16,
    ensures
        r == digit_char(d as nat),
{
    if d < 10 {
        (48u8 + d) as char
    } else {
        (87u8 + d) as char
    }
}

/// A number in decimal.
pub open spec fn decimal_text(n: nat) -> Seq<char>
    decreases n,
{
    if n < 10 {
        seq![digit_char(n)]
    } else {
        decimal_text(n / 10).push(digit_char(n % 10))
    }
}

/// A number in decimal.
pub fn decimal(n: u64) -> (r: String)
    ensures
        r@ == decimal_text(n as nat),
    decreases n,
{
    let mut r = if n < 10 {
        String::new()
    } else {
        decimal(n / 10)
    };
    r.push(digit((n % 10) as u8));
    assert(n < 10 ==> r@ == seq![digit_char(n as nat)]);
    r
}

/// A signed number in decimal.
pub open spec fn signed_text(n: int) -> Seq<char> {
    if n < 0 {
        "-"@ + decimal_text((-n) as nat)
    } else {
        decimal_text(n as nat)
    }
}

/// A signed number in decimal.
pub fn signed_decimal(n: i64) -> (r: String)
    ensures
        r@ == signed_text(n as int),
{
    if n == i64::MIN {
        concat("-", decimal(9223372036854775808).as_str())
    } else if n < 0 {
        concat("-", decimal((-n) as u64).as_str())
    } else {
        decimal(n as u64)
    }
}

/// The last `width` hexadecimal digits of a number.
pub open spec fn hex_text(n: nat, width: nat) -> Seq<char>
    decreases width,
{
    if width == 0 {
        Seq::empty()
    } else {
        hex_text(n / 16, (width - 1) as nat).push(digit_char(n % 16))
    }
}

/// The last `width` hexadecimal digits of a number.
pub fn hex(n: u64, width: usize) -> (r: String)
    ensures
        r@ == hex_text(n as nat, width as nat),
    decreases width,
{
    if width == 0 {
        return String::new();
    }
    let mut r = hex(n / 16, width - 1);
    r.push(digit((n % 16) as u8));
    r
}

} // verus!
