//! Texts as sequences of characters: comparison, white space, lines, numbers.
use vstd::prelude::*;
use vstd::utf8::{decode_utf8, encode_utf8, valid_utf8};

use crate::table::rows;

verus! {

/// `String::push` of std appends one character.
pub assume_specification[ String::push ](text: &mut String, c: char)
    ensures
        final(text)@ == old(text)@.push(c),
;

/// The lower-case form of a text that `str::to_lowercase` of std computes.
pub uninterp spec fn lowercase(text: Seq<char>) -> Seq<char>;

/// Calls `str::to_lowercase` of std; its result is a function of the text alone.
#[verifier::external_body]
pub(crate) fn to_lowercase(text: &str) -> (lower: String)
    ensures
        lower@ == lowercase(text@),
{
    text.to_lowercase()
}

/// Lists the characters of a text.
pub fn chars_of(text: &str) -> (chars: Vec<char>)
    ensures
        chars@ == text@,
{
    let mut chars: Vec<char> = Vec::new();
    for c in it: text.chars()
        invariant
            it.seq() == text@,
            chars@ == text@.take(it.index() as int),
    {
        chars.push(c);
    }
    chars
}

/// Builds a text from the characters `from..to` of a list.
pub fn text_of(chars: &[char], from: usize, to: usize) -> (text: String)
    requires
        from <= to <= chars@.len(),
    ensures
        text@ == chars@.subrange(from as int, to as int),
{
    let mut text = String::new();
    let mut i: usize = from;
    while i < to
        invariant
            from <= i <= to <= chars@.len(),
            text@ == chars@.subrange(from as int, i as int),
        decreases to - i,
    {
        text.push(chars[i]);
        assert(chars@.subrange(from as int, i as int).push(chars@[i as int]) =~= chars@.subrange(
            from as int,
            i + 1,
        ));
        i = i + 1;
    }
    text
}

/// Whether two texts are the same.
pub fn text_eq(left: &str, right: &str) -> (equal: bool)
    ensures
        equal == (left@ == right@),
{
    let a: &[u8] = left.as_bytes();
    let b: &[u8] = right.as_bytes();
    proof {
        vstd::utf8::encode_utf8_decode_utf8(left@);
        vstd::utf8::encode_utf8_decode_utf8(right@);
    }
    if a.len() != b.len() {
        return false;
    }
    for i in 0..a.len()
        invariant
            a.len() == b.len(),
            a@ == encode_utf8(left@),
            b@ == encode_utf8(right@),
            forall|j: int| 0 <= j < i ==> a@[j] == b@[j],
    {
        if a[i] != b[i] {
            return false;
        }
    }
    assert(a@ =~= b@);
    true
}

/// The lexicographic order of texts by code point, which is the order of `str`.
pub open spec fn text_lt(left: Seq<char>, right: Seq<char>) -> bool
    decreases right.len(),
{
    right.len() > 0 && (left.len() == 0 || (left[0] as int) < (right[0] as int) || (left[0]
        == right[0] && text_lt(left.drop_first(), right.drop_first())))
}

/// No text precedes itself.
pub proof fn text_lt_irreflexive(text: Seq<char>)
    ensures
        !text_lt(text, text),
    decreases text.len(),
{
    if text.len() > 0 {
        text_lt_irreflexive(text.drop_first());
    }
}

/// The order of texts is transitive.
pub proof fn text_lt_transitive(a: Seq<char>, b: Seq<char>, c: Seq<char>)
    requires
        text_lt(a, b),
        text_lt(b, c),
    ensures
        text_lt(a, c),
    decreases b.len(),
{
    if a.len() > 0 && a[0] == b[0] && b[0] == c[0] {
        text_lt_transitive(a.drop_first(), b.drop_first(), c.drop_first());
    }
}

/// Of two different texts one precedes the other.
pub proof fn text_lt_total(a: Seq<char>, b: Seq<char>)
    ensures
        a == b || text_lt(a, b) || text_lt(b, a),
    decreases a.len(),
{
    if a.len() > 0 && b.len() > 0 && a[0] == b[0] {
        text_lt_total(a.drop_first(), b.drop_first());
        if a.drop_first() == b.drop_first() {
            assert(a =~= seq![a[0]] + a.drop_first());
            assert(b =~= seq![b[0]] + b.drop_first());
        }
    } else if a.len() == 0 && b.len() == 0 {
        assert(a =~= b);
    } else if a.len() > 0 && b.len() > 0 {
        assert(a[0] != b[0]);
        assert(a[0] as int != b[0] as int);
    }
}

/// Where two texts first differ decides which of them precedes the other; where they do not differ as
/// far as they go, the shorter one precedes.
pub proof fn text_lt_by_first_difference(left: Seq<char>, right: Seq<char>, n: int)
    requires
        0 <= n <= left.len(),
        n <= right.len(),
        forall|i: int| 0 <= i < n ==> #[trigger] left[i] == right[i],
    ensures
        n < left.len() && n < right.len() && left[n] != right[n] ==> (text_lt(left, right) <==> (
        left[n] as int) < (right[n] as int)),
        n == left.len() ==> (text_lt(left, right) <==> n < right.len()),
        n == right.len() ==> !text_lt(left, right),
    decreases n,
{
    if n > 0 {
        let a = left.drop_first();
        let b = right.drop_first();
        assert(left[0] == right[0]);
        assert forall|i: int| 0 <= i < n - 1 implies #[trigger] a[i] == b[i] by {
            assert(left[i + 1] == right[i + 1]);
        }
        text_lt_by_first_difference(a, b, n - 1);
    }
}

/// Whether one text precedes another.
pub fn text_less(left: &str, right: &str) -> (less: bool)
    ensures
        less == text_lt(left@, right@),
{
    let a: Vec<char> = chars_of(left);
    let b: Vec<char> = chars_of(right);
    let mut i: usize = 0;
    proof {
        assert(a@.skip(0) =~= a@);
        assert(b@.skip(0) =~= b@);
    }
    while i < a.len() && i < b.len()
        invariant
            i <= a.len(),
            i <= b.len(),
            a@ == left@,
            b@ == right@,
            text_lt(a@, b@) == text_lt(a@.skip(i as int), b@.skip(i as int)),
        decreases a.len() - i,
    {
        let ghost x = a@.skip(i as int);
        let ghost y = b@.skip(i as int);
        assert(x.drop_first() =~= a@.skip(i + 1));
        assert(y.drop_first() =~= b@.skip(i + 1));
        if a[i] < b[i] {
            return true;
        }
        if a[i] != b[i] {
            return false;
        }
        i = i + 1;
    }
    i < b.len()
}

/// The white space of Unicode.
pub open spec fn is_white(c: char) -> bool {
    let code = c as u32;
    ||| 0x9 <= code <= 0xd
    ||| code == 0x20
    ||| code == 0x85
    ||| code == 0xa0
    ||| code == 0x1680
    ||| 0x2000 <= code <= 0x200a
    ||| code == 0x2028
    ||| code == 0x2029
    ||| code == 0x202f
    ||| code == 0x205f
    ||| code == 0x3000
}

/// Whether a character is white space.
pub fn white(c: char) -> (result: bool)
    ensures
        result == is_white(c),
{
    let code: u32 = c as u32;
    (0x9 <= code && code <= 0xd) || code == 0x20 || code == 0x85 || code == 0xa0 || code == 0x1680
        || (0x2000 <= code && code <= 0x200a) || code == 0x2028 || code == 0x2029 || code == 0x202f
        || code == 0x205f || code == 0x3000
}

/// How many characters at the front of a text are all white space (`true`) or all not.
pub open spec fn run(text: Seq<char>, white: bool) -> nat
    decreases text.len(),
{
    if text.len() > 0 && is_white(text[0]) == white {
        1 + run(text.drop_first(), white)
    } else {
        0
    }
}

proof fn run_is(text: Seq<char>, white: bool, n: int)
    requires
        0 <= n <= text.len(),
        forall|i: int| 0 <= i < n ==> is_white(#[trigger] text[i]) == white,
        n < text.len() ==> is_white(text[n]) != white,
    ensures
        run(text, white) == n,
    decreases n,
{
    if n > 0 {
        assert(is_white(text[0]) == white);
        assert forall|i: int| 0 <= i < n - 1 implies is_white(
            #[trigger] text.drop_first()[i],
        ) == white by {
            assert(text.drop_first()[i] == text[i + 1]);
        }
        run_is(text.drop_first(), white, n - 1);
    }
}

pub proof fn run_bound(text: Seq<char>, white: bool)
    ensures
        run(text, white) <= text.len(),
        forall|i: int| 0 <= i < run(text, white) ==> is_white(#[trigger] text[i]) == white,
        run(text, white) < text.len() ==> is_white(text[run(text, white) as int]) != white,
    decreases text.len(),
{
    if text.len() > 0 && is_white(text[0]) == white {
        let rest = text.drop_first();
        run_bound(rest, white);
        assert forall|i: int| 0 <= i < run(text, white) implies is_white(
            #[trigger] text[i],
        ) == white by {
            if i > 0 {
                assert(rest[i - 1] == text[i]);
            }
        }
        if run(text, white) < text.len() {
            assert(rest[run(rest, white) as int] == text[run(text, white) as int]);
        }
    }
}

fn run_end(chars: &Vec<char>, from: usize, white_space: bool) -> (end: usize)
    requires
        from <= chars@.len(),
    ensures
        from <= end <= chars@.len(),
        end - from == run(chars@.skip(from as int), white_space),
        forall|j: int| from <= j < end ==> is_white(#[trigger] chars@[j]) == white_space,
        end < chars@.len() ==> is_white(chars@[end as int]) != white_space,
{
    let mut end: usize = from;
    while end < chars.len() && white(chars[end]) == white_space
        invariant
            from <= end <= chars@.len(),
            forall|j: int| from <= j < end ==> is_white(#[trigger] chars@[j]) == white_space,
        decreases chars.len() - end,
    {
        end = end + 1;
    }
    proof {
        let rest = chars@.skip(from as int);
        assert forall|i: int| 0 <= i < end - from implies is_white(
            #[trigger] rest[i],
        ) == white_space by {
            assert(rest[i] == chars@[from + i]);
        }
        run_is(rest, white_space, end - from);
    }
    end
}

/// A text without the white space at its front.
pub open spec fn trimmed_start(text: Seq<char>) -> Seq<char> {
    text.skip(run(text, true) as int)
}

/// A text without the white space at its end.
pub open spec fn trimmed_end(text: Seq<char>) -> Seq<char>
    decreases text.len(),
{
    if text.len() > 0 && is_white(text.last()) {
        trimmed_end(text.drop_last())
    } else {
        text
    }
}

/// A text without the white space at either end.
pub open spec fn trimmed(text: Seq<char>) -> Seq<char> {
    trimmed_end(trimmed_start(text))
}

/// Removes the white space at the front of a text.
pub fn trim_start(text: &str) -> (result: String)
    ensures
        result@ == trimmed_start(text@),
{
    let chars: Vec<char> = chars_of(text);
    let from: usize = run_end(&chars, 0, true);
    assert(chars@.skip(0) =~= chars@);
    assert(chars@.subrange(from as int, chars@.len() as int) =~= chars@.skip(from as int));
    text_of(chars.as_slice(), from, chars.len())
}

/// Removes the white space at either end of a text.
pub fn trim(text: &str) -> (result: String)
    ensures
        result@ == trimmed(text@),
{
    let chars: Vec<char> = chars_of(text);
    let from: usize = run_end(&chars, 0, true);
    let mut to: usize = chars.len();
    proof {
        assert(chars@.skip(0) =~= chars@);
        assert(chars@.subrange(from as int, to as int) =~= chars@.skip(from as int));
    }
    while to > from && white(chars[to - 1])
        invariant
            from <= to <= chars@.len(),
            trimmed(text@) == trimmed_end(chars@.subrange(from as int, to as int)),
        decreases to,
    {
        assert(chars@.subrange(from as int, to as int).drop_last() =~= chars@.subrange(
            from as int,
            to - 1,
        ));
        to = to - 1;
    }
    text_of(chars.as_slice(), from, to)
}

/// The words of a text: its longest pieces without white space, in order.
pub open spec fn words(text: Seq<char>) -> Seq<Seq<char>>
    decreases text.len(),
{
    proof {
        run_bound(text, true);
        run_bound(trimmed_start(text), false);
    }
    let rest = trimmed_start(text);
    if rest.len() == 0 || run(rest, false) == 0 {
        Seq::empty()
    } else {
        seq![rest.take(run(rest, false) as int)] + words(rest.skip(run(rest, false) as int))
    }
}

/// The views of a list of texts.
pub open spec fn texts(list: Seq<String>) -> Seq<Seq<char>> {
    rows(list)
}

/// The view of a text that may be missing.
pub open spec fn optional_view(text: Option<String>) -> Option<Seq<char>> {
    match text {
        Some(text) => Some(text@),
        None => None,
    }
}

/// Calls `std::str::from_utf8`: bytes are a text exactly where they are valid UTF-8, and then it is
/// the one that they encode.
#[verifier::external_body]
pub(crate) fn utf8_text(bytes: &[u8]) -> (text: Option<String>)
    ensures
        match text {
            Some(text) => valid_utf8(bytes@) && text@ == decode_utf8(bytes@),
            None => !valid_utf8(bytes@),
        },
{
    std::str::from_utf8(bytes).ok().map(str::to_owned)
}

/// A character with an ASCII letter in lower case.
pub open spec fn ascii_lower(c: char) -> char {
    if 'A' <= c && c <= 'Z' {
        ((c as int) + 32) as char
    } else {
        c
    }
}

/// How many characters come before the first zero character.
pub open spec fn before_zero(text: Seq<char>) -> nat
    decreases text.len(),
{
    if text.len() > 0 && text[0] != '\0' {
        1 + before_zero(text.drop_first())
    } else {
        0
    }
}

proof fn before_zero_is(text: Seq<char>, n: int)
    requires
        0 <= n <= text.len(),
        forall|i: int| 0 <= i < n ==> text[i] != '\0',
        n == text.len() || text[n] == '\0',
    ensures
        before_zero(text) == n,
    decreases n,
{
    if n > 0 {
        let rest = text.drop_first();
        assert forall|i: int| 0 <= i < n - 1 implies rest[i] != '\0' by {
            assert(rest[i] == text[i + 1]);
        }
        if n < text.len() {
            assert(rest[n - 1] == text[n]);
        }
        before_zero_is(rest, n - 1);
    }
}

/// Zero characters.
pub open spec fn zeros(count: nat) -> Seq<char> {
    Seq::new(count, |i: int| '\0')
}

/// By what a text is ordered with no regard to the case of ASCII letters: by its letters in lower
/// case, up to a zero character, and then by how many bytes there are.
pub open spec fn folded(text: Seq<char>) -> Seq<char> {
    let n = before_zero(text) as int;
    text.take(n).map_values(|c: char| ascii_lower(c)) + zeros(encode_utf8(text.skip(n)).len())
}

/// Makes the text by which another one is ordered with no regard to the case of ASCII letters.
pub fn fold(text: &str) -> (result: String)
    ensures
        result@ == folded(text@),
{
    let chars: Vec<char> = chars_of(text);
    let mut result = String::new();
    let mut n: usize = 0;
    while n < chars.len() && chars[n] != '\0'
        invariant
            chars@ == text@,
            n <= chars@.len(),
            forall|i: int| 0 <= i < n ==> text@[i] != '\0',
            result@ == text@.take(n as int).map_values(|c: char| ascii_lower(c)),
        decreases chars@.len() - n,
    {
        let c: char = chars[n];
        let ghost before = result@;
        let lower: char = if 'A' <= c && c <= 'Z' {
            ((c as u8) + 32) as char
        } else {
            c
        };
        result.push(lower);
        assert(text@.take(n + 1).map_values(|c: char| ascii_lower(c)) =~= before.push(
            ascii_lower(c),
        ));
        n = n + 1;
    }
    proof {
        before_zero_is(text@, n as int);
    }
    let ghost front = result@;
    let mut rest = String::new();
    let mut at: usize = n;
    while at < chars.len()
        invariant
            chars@ == text@,
            n <= at <= chars@.len(),
            rest@ == text@.subrange(n as int, at as int),
        decreases chars@.len() - at,
    {
        let ghost before = rest@;
        rest.push(chars[at]);
        assert(text@.subrange(n as int, at + 1) =~= before.push(text@[at as int]));
        at = at + 1;
    }
    assert(rest@ =~= text@.skip(n as int));
    let count: usize = rest.as_str().as_bytes().len();
    let mut added: usize = 0;
    assert(front =~= front + zeros(0));
    while added < count
        invariant
            added <= count,
            result@ == front + zeros(added as nat),
        decreases count - added,
    {
        result.push('\0');
        assert(result@ =~= front + zeros((added + 1) as nat));
        added = added + 1;
    }
    result
}

/// The view of a borrowed text that may be missing.
pub open spec fn borrowed_view(text: Option<&str>) -> Option<Seq<char>> {
    match text {
        Some(text) => Some(text@),
        None => None,
    }
}

/// Owns a text that may be missing.
pub fn owned(text: Option<&str>) -> (copy: Option<String>)
    ensures
        optional_view(copy) == borrowed_view(text),
{
    match text {
        Some(text) => Some(text.to_owned()),
        None => None,
    }
}

/// Splits a text into its words.
pub fn split_whitespace(text: &str) -> (list: Vec<String>)
    ensures
        texts(list@) == words(text@),
{
    let chars: Vec<char> = chars_of(text);
    let mut list: Vec<String> = Vec::new();
    let mut at: usize = 0;
    assert(chars@.skip(0) =~= chars@);
    assert(texts(list@) + words(chars@.skip(0)) =~= words(text@));
    while at < chars.len()
        invariant
            at <= chars@.len(),
            chars@ == text@,
            texts(list@) + words(chars@.skip(at as int)) == words(text@),
        decreases chars.len() - at,
    {
        let start: usize = run_end(&chars, at, true);
        let end: usize = run_end(&chars, start, false);
        let ghost here = chars@.skip(at as int);
        let ghost rest = trimmed_start(here);
        proof {
            run_bound(here, true);
            run_bound(rest, false);
            assert(rest =~= chars@.skip(start as int));
            assert(rest.take(end - start) =~= chars@.subrange(start as int, end as int));
            assert(rest.skip(end - start) =~= chars@.skip(end as int));
        }
        if start == end {
            assert(words(here) =~= Seq::<Seq<char>>::empty());
            assert(texts(list@) + words(here) =~= texts(list@));
            return list;
        }
        let word: String = text_of(chars.as_slice(), start, end);
        let ghost before = texts(list@);
        list.push(word);
        proof {
            assert(texts(list@) =~= before.push(word@));
            assert(before.push(word@) + words(chars@.skip(end as int)) =~= before + (seq![word@]
                + words(chars@.skip(end as int))));
        }
        at = end;
    }
    proof {
        let here = chars@.skip(at as int);
        assert(here.len() == 0);
        run_bound(here, true);
        run_bound(trimmed_start(here), false);
        assert(words(here) =~= Seq::<Seq<char>>::empty());
        assert(texts(list@) + words(here) =~= texts(list@));
    }
    list
}

/// Texts joined with a separator between neighbours.
pub open spec fn joined(list: Seq<Seq<char>>, separator: Seq<char>) -> Seq<char>
    decreases list.len(),
{
    if list.len() == 0 {
        Seq::empty()
    } else if list.len() == 1 {
        list[0]
    } else {
        joined(list.drop_last(), separator) + separator + list.last()
    }
}

/// Joins texts with a separator between neighbours.
pub fn join(list: &Vec<String>, separator: &str) -> (text: String)
    ensures
        text@ == joined(texts(list@), separator@),
{
    let mut text = String::new();
    for i in 0..list.len()
        invariant
            text@ == joined(texts(list@).take(i as int), separator@),
    {
        let ghost next = texts(list@).take(i + 1);
        assert(next.drop_last() =~= texts(list@).take(i as int));
        if i > 0 {
            text.append(separator);
        }
        text.append(list[i].as_str());
        assert(i == 0 ==> text@ =~= list@[0]@);
    }
    assert(texts(list@).take(list@.len() as int) =~= texts(list@));
    text
}

proof fn trimmed_end_is(text: Seq<char>)
    ensures
        trimmed_end(text).len() <= text.len(),
        trimmed_end(text) == text.take(trimmed_end(text).len() as int),
        forall|i: int| trimmed_end(text).len() <= i < text.len() ==> is_white(#[trigger] text[i]),
        trimmed_end(text).len() > 0 ==> !is_white(trimmed_end(text).last()),
    decreases text.len(),
{
    if text.len() > 0 && is_white(text.last()) {
        let front = text.drop_last();
        trimmed_end_is(front);
        let n = trimmed_end(front).len() as int;
        assert(front.take(n) =~= text.take(n));
        assert forall|i: int| n <= i < text.len() implies is_white(#[trigger] text[i]) by {
            if i < front.len() {
                assert(front[i] == text[i]);
            }
        }
    } else {
        assert(text.take(text.len() as int) =~= text);
    }
}

/// What is left of a text without the white space at its ends is the piece of it between the two: all
/// before and after the piece is white space, and it neither begins nor ends with any.
pub proof fn trimming_takes_white_ends(text: Seq<char>)
    ensures
        exists|from: int, to: int|
            {
                &&& 0 <= from <= to <= text.len()
                &&& trimmed(text) == #[trigger] text.subrange(from, to)
                &&& forall|i: int|
                    0 <= i < from || to <= i < text.len() ==> is_white(#[trigger] text[i])
            },
        trimmed(text).len() > 0 ==> !is_white(trimmed(text)[0]) && !is_white(trimmed(text).last()),
{
    run_bound(text, true);
    let from = run(text, true) as int;
    let rest = trimmed_start(text);
    trimmed_end_is(rest);
    let to = from + trimmed(text).len();
    assert(trimmed(text) =~= text.subrange(from, to));
    assert forall|i: int| 0 <= i < from || to <= i < text.len() implies is_white(
        #[trigger] text[i],
    ) by {
        if to <= i {
            assert(rest[i - from] == text[i]);
        }
    }
    if trimmed(text).len() > 0 {
        assert(trimmed(text)[0] == text[from]);
    }
}

/// No word is empty, and none holds white space.
pub proof fn words_are_unbroken(text: Seq<char>)
    ensures
        forall|i: int| 0 <= i < words(text).len() ==> (#[trigger] words(text)[i]).len() > 0,
        forall|i: int, j: int|
            0 <= i < words(text).len() && 0 <= j < words(text)[i].len() ==> !is_white(
                #[trigger] words(text)[i][j],
            ),
    decreases text.len(),
{
    run_bound(text, true);
    let rest = trimmed_start(text);
    run_bound(rest, false);
    let n = run(rest, false) as int;
    if rest.len() > 0 && n > 0 {
        let later = words(rest.skip(n));
        words_are_unbroken(rest.skip(n));
        assert forall|i: int| 0 <= i < words(text).len() implies (
        #[trigger] words(text)[i]).len() > 0 by {
            if i > 0 {
                assert(words(text)[i] == later[i - 1]);
            }
        }
        assert forall|i: int, j: int|
            0 <= i < words(text).len() && 0 <= j < words(text)[i].len() implies !is_white(
            #[trigger] words(text)[i][j],
        ) by {
            if i > 0 {
                assert(words(text)[i] == later[i - 1]);
                assert(!is_white(later[i - 1][j]));
            } else {
                assert(words(text)[0][j] == rest[j]);
            }
        }
    }
}

/// The characters of a text that are no white space, in their order.
pub open spec fn dark(text: Seq<char>) -> Seq<char> {
    text.filter(|c: char| !is_white(c))
}

proof fn dark_parts(left: Seq<char>, right: Seq<char>)
    ensures
        dark(left + right) == dark(left) + dark(right),
{
    Seq::filter_distributes_over_add(left, right, |c: char| !is_white(c));
}

proof fn dark_of_white(text: Seq<char>)
    requires
        forall|i: int| 0 <= i < text.len() ==> is_white(#[trigger] text[i]),
    ensures
        dark(text) == Seq::<char>::empty(),
    decreases text.len(),
{
    reveal(Seq::filter);
    if text.len() > 0 {
        let front = text.drop_last();
        assert forall|i: int| 0 <= i < front.len() implies is_white(#[trigger] front[i]) by {
            assert(front[i] == text[i]);
        }
        dark_of_white(front);
    }
}

proof fn dark_of_dark(text: Seq<char>)
    requires
        forall|i: int| 0 <= i < text.len() ==> !is_white(#[trigger] text[i]),
    ensures
        dark(text) == text,
    decreases text.len(),
{
    reveal(Seq::filter);
    if text.len() > 0 {
        let front = text.drop_last();
        assert forall|i: int| 0 <= i < front.len() implies !is_white(#[trigger] front[i]) by {
            assert(front[i] == text[i]);
        }
        dark_of_dark(front);
        assert(front.push(text.last()) =~= text);
    } else {
        assert(dark(text) =~= text);
    }
}

proof fn joined_first(list: Seq<Seq<char>>, separator: Seq<char>)
    requires
        list.len() > 1,
    ensures
        joined(list, separator) == list[0] + separator + joined(list.drop_first(), separator),
    decreases list.len(),
{
    if list.len() == 2 {
        assert(list.drop_last() =~= seq![list[0]]);
        assert(list.drop_first() =~= seq![list[1]]);
        assert(joined(list.drop_last(), separator) == list[0]);
        assert(joined(list.drop_first(), separator) == list[1]);
        assert(joined(list, separator) =~= list[0] + separator + list[1]);
    } else {
        let front = list.drop_last();
        joined_first(front, separator);
        assert(front.drop_first() =~= list.drop_first().drop_last());
        assert(joined(list, separator) =~= list[0] + separator + joined(
            list.drop_first(),
            separator,
        ));
    }
}

proof fn dark_of_words(text: Seq<char>)
    ensures
        dark(joined(words(text), " "@)) == dark(text),
    decreases text.len(),
{
    reveal_strlit(" ");
    assert(" "@ =~= seq![' ']);
    run_bound(text, true);
    let white = run(text, true) as int;
    let rest = trimmed_start(text);
    run_bound(rest, false);
    let n = run(rest, false) as int;
    let ahead = text.take(white);
    assert(text =~= ahead + rest);
    dark_parts(ahead, rest);
    assert forall|i: int| 0 <= i < ahead.len() implies is_white(#[trigger] ahead[i]) by {
        assert(ahead[i] == text[i]);
    }
    dark_of_white(ahead);
    assert(dark(text) =~= dark(rest));
    dark_of_white(Seq::<char>::empty());
    if rest.len() > 0 && n > 0 {
        let word = rest.take(n);
        let tail = rest.skip(n);
        let later = words(tail);
        dark_of_words(tail);
        assert(rest =~= word + tail);
        dark_parts(word, tail);
        assert(words(text).drop_first() =~= later);
        if later.len() == 0 {
            assert(words(text) =~= seq![word]);
            assert(joined(later, " "@) =~= Seq::<char>::empty());
            assert(dark(word) + dark(tail) =~= dark(word));
        } else {
            let after = joined(later, " "@);
            joined_first(words(text), " "@);
            assert(words(text)[0] == word);
            dark_parts(word + " "@, after);
            dark_parts(word, " "@);
            dark_of_white(" "@);
            assert(dark(word) + Seq::<char>::empty() =~= dark(word));
        }
    } else {
        assert(rest.len() == 0);
        dark_of_white(rest);
        assert(words(text) =~= Seq::<Seq<char>>::empty());
        assert(joined(words(text), " "@) =~= Seq::<char>::empty());
    }
}

/// Whether a text has no white space but single spaces between other characters.
pub open spec fn is_single_spaced(text: Seq<char>) -> bool {
    forall|i: int|
        0 <= i < text.len() && is_white(#[trigger] text[i]) ==> text[i] == ' ' && 0 < i < text.len()
            - 1 && !is_white(text[i - 1]) && !is_white(text[i + 1])
}

proof fn joined_is_single_spaced(list: Seq<Seq<char>>)
    requires
        forall|i: int| 0 <= i < list.len() ==> (#[trigger] list[i]).len() > 0,
        forall|i: int, j: int|
            0 <= i < list.len() && 0 <= j < list[i].len() ==> !is_white(#[trigger] list[i][j]),
    ensures
        is_single_spaced(joined(list, " "@)),
        list.len() > 0 ==> joined(list, " "@).len() > 0 && !is_white(joined(list, " "@).last()),
    decreases list.len(),
{
    reveal_strlit(" ");
    assert(" "@ =~= seq![' ']);
    let whole = joined(list, " "@);
    if list.len() == 1 {
        assert forall|i: int| 0 <= i < whole.len() implies !is_white(#[trigger] whole[i]) by {
            assert(!is_white(list[0][i]));
        }
    } else if list.len() > 1 {
        let front = list.drop_last();
        let last = list.last();
        assert forall|i: int| 0 <= i < front.len() implies (#[trigger] front[i]).len() > 0 by {
            assert(front[i] == list[i]);
        }
        assert forall|i: int, j: int|
            0 <= i < front.len() && 0 <= j < front[i].len() implies !is_white(
            #[trigger] front[i][j],
        ) by {
            assert(front[i] == list[i]);
            assert(!is_white(list[i][j]));
        }
        joined_is_single_spaced(front);
        let before = joined(front, " "@);
        let n = before.len() as int;
        assert(whole == before + " "@ + last);
        assert(last == list[list.len() - 1]);
        assert(last.len() > 0);
        assert forall|j: int| 0 <= j < last.len() implies !is_white(#[trigger] last[j]) by {
            assert(!is_white(list[list.len() - 1][j]));
        }
        assert forall|i: int| 0 <= i < whole.len() && is_white(#[trigger] whole[i]) implies whole[i]
            == ' ' && 0 < i < whole.len() - 1 && !is_white(whole[i - 1]) && !is_white(
            whole[i + 1],
        ) by {
            if i < n {
                assert(whole[i] == before[i]);
                assert(is_white(before[i]));
                assert(whole[i - 1] == before[i - 1] && whole[i + 1] == before[i + 1]);
            } else if i == n {
                assert(whole[i - 1] == before.last());
                assert(whole[i + 1] == last[0]);
            } else {
                assert(whole[i] == last[i - n - 1]);
            }
        }
        assert(whole.last() == last[last.len() - 1]);
    }
}

/// To put the words of a text together with single spaces between them loses nothing but white space,
/// and leaves none of it but those spaces.
pub proof fn words_keep_the_text(text: Seq<char>)
    ensures
        dark(joined(words(text), " "@)) == dark(text),
        is_single_spaced(joined(words(text), " "@)),
{
    dark_of_words(text);
    words_are_unbroken(text);
    joined_is_single_spaced(words(text));
}

/// The first `count` characters of a text, or all of them where it has fewer.
pub open spec fn first_chars(text: Seq<char>, count: nat) -> Seq<char> {
    if text.len() <= count {
        text
    } else {
        text.take(count as int)
    }
}

/// Keeps the first `count` characters of a text.
pub fn take_chars(text: &str, count: usize) -> (result: String)
    ensures
        result@ == first_chars(text@, count as nat),
{
    let chars: Vec<char> = chars_of(text);
    let to: usize = if chars.len() < count { chars.len() } else { count };
    assert(chars@.subrange(0, to as int) =~= first_chars(text@, count as nat));
    text_of(chars.as_slice(), 0, to)
}

/// Whether a text begins with another.
pub fn starts_with(text: &str, prefix: &str) -> (result: bool)
    ensures
        result == prefix@.is_prefix_of(text@),
{
    let a: Vec<char> = chars_of(text);
    let b: Vec<char> = chars_of(prefix);
    if b.len() > a.len() {
        return false;
    }
    for i in 0..b.len()
        invariant
            a@ == text@,
            b@ == prefix@,
            b.len() <= a.len(),
            forall|j: int| 0 <= j < i ==> a@[j] == b@[j],
    {
        if a[i] != b[i] {
            assert(a@.subrange(0, b@.len() as int)[i as int] == a@[i as int]);
            return false;
        }
    }
    assert(b@ =~= a@.subrange(0, b@.len() as int));
    true
}

/// What follows a prefix in a text that begins with it.
pub open spec fn after_prefix(text: Seq<char>, prefix: Seq<char>) -> Option<Seq<char>> {
    if prefix.is_prefix_of(text) {
        Some(text.skip(prefix.len() as int))
    } else {
        None
    }
}

/// Removes a prefix from a text that begins with it.
pub fn strip_prefix(text: &str, prefix: &str) -> (rest: Option<String>)
    ensures
        match rest {
            Some(value) => after_prefix(text@, prefix@) == Some(value@),
            None => after_prefix(text@, prefix@) is None,
        },
{
    if !starts_with(text, prefix) {
        return None;
    }
    let chars: Vec<char> = chars_of(text);
    let from: usize = chars_of(prefix).len();
    assert(chars@.subrange(from as int, chars@.len() as int) =~= text@.skip(from as int));
    Some(text_of(chars.as_slice(), from, chars.len()))
}

/// Where the first line feed of a text stands; its length where there is none.
pub open spec fn line_feed(text: Seq<char>) -> nat
    decreases text.len(),
{
    if text.len() > 0 && text[0] != '\n' {
        1 + line_feed(text.drop_first())
    } else {
        0
    }
}

proof fn line_feed_is(text: Seq<char>, n: int)
    requires
        0 <= n <= text.len(),
        forall|i: int| 0 <= i < n ==> #[trigger] text[i] != '\n',
        n < text.len() ==> text[n] == '\n',
    ensures
        line_feed(text) == n,
    decreases n,
{
    if n > 0 {
        assert(text[0] != '\n');
        assert forall|i: int| 0 <= i < n - 1 implies #[trigger] text.drop_first()[i] != '\n' by {
            assert(text.drop_first()[i] == text[i + 1]);
        }
        line_feed_is(text.drop_first(), n - 1);
    }
}

/// A line without the carriage return at its end.
pub open spec fn without_return(line: Seq<char>) -> Seq<char> {
    if line.len() > 0 && line.last() == '\r' {
        line.drop_last()
    } else {
        line
    }
}

/// The lines of a text: a line ends at a line feed, a carriage return before the line feed is
/// no part of it, and nothing follows the last line feed.
pub open spec fn lines_of(text: Seq<char>) -> Seq<Seq<char>>
    decreases text.len(),
{
    let n = line_feed(text);
    if text.len() == 0 {
        Seq::empty()
    } else if n >= text.len() {
        seq![text]
    } else {
        seq![without_return(text.take(n as int))] + lines_of(text.skip(n as int + 1))
    }
}

/// Splits a text into its lines.
pub fn lines(text: &str) -> (list: Vec<String>)
    ensures
        texts(list@) == lines_of(text@),
{
    let chars: Vec<char> = chars_of(text);
    let mut list: Vec<String> = Vec::new();
    let mut at: usize = 0;
    assert(chars@.skip(0) =~= chars@);
    assert(texts(list@) + lines_of(chars@.skip(0)) =~= lines_of(text@));
    while at < chars.len()
        invariant
            at <= chars@.len(),
            chars@ == text@,
            texts(list@) + lines_of(chars@.skip(at as int)) == lines_of(text@),
        decreases chars.len() - at,
    {
        let mut end: usize = at;
        while end < chars.len() && chars[end] != '\n'
            invariant
                at <= end <= chars@.len(),
                forall|j: int| at <= j < end ==> #[trigger] chars@[j] != '\n',
            decreases chars.len() - end,
        {
            end = end + 1;
        }
        let ghost here = chars@.skip(at as int);
        let ghost before = texts(list@);
        proof {
            assert forall|i: int| 0 <= i < end - at implies #[trigger] here[i] != '\n' by {
                assert(here[i] == chars@[at + i]);
            }
            line_feed_is(here, end - at);
            assert(here.take(end - at) =~= chars@.subrange(at as int, end as int));
        }
        if end == chars.len() {
            let last: String = text_of(chars.as_slice(), at, end);
            list.push(last);
            assert(here =~= chars@.subrange(at as int, end as int));
            assert(texts(list@) =~= before + lines_of(here));
            return list;
        }
        let to: usize = if end > at && chars[end - 1] == '\r' { end - 1 } else { end };
        let line: String = text_of(chars.as_slice(), at, to);
        list.push(line);
        proof {
            assert(line@ =~= without_return(here.take(end - at)));
            assert(here.skip(end - at + 1) =~= chars@.skip(end + 1));
            assert(texts(list@) =~= before.push(line@));
            assert(before.push(line@) + lines_of(chars@.skip(end + 1)) =~= before + (seq![line@]
                + lines_of(chars@.skip(end + 1))));
        }
        at = end + 1;
    }
    assert(texts(list@) + lines_of(chars@.skip(at as int)) =~= texts(list@));
    list
}

/// The character of a decimal digit.
pub open spec fn digit_char(digit: nat) -> char {
    (48 + digit) as char
}

/// A number in decimal.
pub open spec fn decimal(number: nat) -> Seq<char>
    decreases number,
{
    if number < 10 {
        seq![digit_char(number)]
    } else {
        decimal(number / 10).push(digit_char(number % 10))
    }
}

/// Writes a number in decimal.
pub fn decimal_text(number: u64) -> (text: String)
    ensures
        text@ == decimal(number as nat),
    decreases number,
{
    let mut text: String = if number < 10 { String::new() } else { decimal_text(number / 10) };
    let digit: u8 = (number % 10) as u8;
    text.push((48 + digit) as char);
    assert(number < 10 ==> text@ =~= seq![digit_char(number as nat)]);
    text
}

/// The value of a digit in a radix of at most sixteen.
pub open spec fn digit_value(byte: u8, radix: nat) -> Option<nat> {
    let value = if 48 <= byte <= 57 {
        (byte - 48) as nat
    } else if 97 <= byte <= 102 {
        (byte - 87) as nat
    } else if 65 <= byte <= 70 {
        (byte - 55) as nat
    } else {
        16
    };
    if value < radix {
        Some(value)
    } else {
        None
    }
}

/// Whether every byte is a digit.
pub open spec fn all_digits(bytes: Seq<u8>, radix: nat) -> bool {
    forall|i: int| 0 <= i < bytes.len() ==> digit_value(#[trigger] bytes[i], radix) is Some
}

/// The number that digits spell.
pub open spec fn digits_value(bytes: Seq<u8>, radix: nat) -> nat
    decreases bytes.len(),
{
    if bytes.len() == 0 {
        0
    } else {
        digits_value(bytes.drop_last(), radix) * radix + digit_value(bytes.last(), radix)->0
    }
}

/// The unsigned number that bytes spell: digits after an optional plus sign, at most `max`.
pub open spec fn unsigned_value(bytes: Seq<u8>, radix: nat, max: nat) -> Option<nat> {
    let digits = if bytes.len() > 0 && bytes[0] == 43 {
        bytes.skip(1)
    } else {
        bytes
    };
    if digits.len() > 0 && all_digits(digits, radix) && digits_value(digits, radix) <= max {
        Some(digits_value(digits, radix))
    } else {
        None
    }
}

proof fn digits_value_grows(bytes: Seq<u8>, radix: nat, n: int)
    requires
        0 <= n <= bytes.len(),
        all_digits(bytes, radix),
        radix >= 1,
    ensures
        digits_value(bytes.take(n), radix) <= digits_value(bytes, radix),
    decreases bytes.len(),
{
    if n < bytes.len() {
        let front = bytes.drop_last();
        assert(front.take(n) =~= bytes.take(n));
        assert forall|i: int| 0 <= i < front.len() implies digit_value(
            #[trigger] front[i],
            radix,
        ) is Some by {
            assert(front[i] == bytes[i]);
        }
        digits_value_grows(front, radix, n);
        let v = digits_value(front, radix);
        assert(v <= v * radix) by (nonlinear_arith)
            requires
                radix >= 1,
                v >= 0,
        ;
    } else {
        assert(bytes.take(n) =~= bytes);
    }
}

/// Reads an unsigned number in radix ten or sixteen.
pub fn parse_unsigned(bytes: &[u8], radix: u64, max: u64) -> (number: Option<u64>)
    requires
        radix == 10 || radix == 16,
    ensures
        match number {
            Some(value) => unsigned_value(bytes@, radix as nat, max as nat) == Some(value as nat),
            None => unsigned_value(bytes@, radix as nat, max as nat) is None,
        },
{
    let from: usize = if bytes.len() > 0 && bytes[0] == 43 { 1 } else { 0 };
    let ghost digits = if from == 1 { bytes@.skip(1) } else { bytes@ };
    if bytes.len() == from {
        return None;
    }
    let mut value: u64 = 0;
    let mut i: usize = from;
    while i < bytes.len()
        invariant
            radix == 10 || radix == 16,
            from <= i <= bytes@.len(),
            from == 0 || from == 1,
            digits == (if from == 1 { bytes@.skip(1) } else { bytes@ }),
            digits == (if bytes@.len() > 0 && bytes@[0] == 43 { bytes@.skip(1) } else { bytes@ }),
            digits.len() == bytes@.len() - from,
            digits.len() > 0,
            value <= max,
            value == digits_value(digits.take(i - from), radix as nat),
            forall|j: int|
                0 <= j < i - from ==> digit_value(#[trigger] digits[j], radix as nat) is Some,
        decreases bytes.len() - i,
    {
        let byte: u8 = bytes[i];
        assert(digits[i - from] == byte);
        let digit: u64 = if 48 <= byte && byte <= 57 {
            (byte - 48) as u64
        } else if 97 <= byte && byte <= 102 {
            (byte - 87) as u64
        } else if 65 <= byte && byte <= 70 {
            (byte - 55) as u64
        } else {
            16
        };
        if digit >= radix {
            assert(digit_value(digits[i - from], radix as nat) is None);
            return None;
        }
        let ghost next = digits.take(i - from + 1);
        assert(next.drop_last() =~= digits.take(i - from));
        assert(next.last() == byte);
        let shifted: u128 = if radix == 10 { value as u128 * 10 } else { value as u128 * 16 };
        let wide: u128 = shifted + digit as u128;
        assert(wide == digits_value(next, radix as nat));
        if wide > max as u128 {
            proof {
                if all_digits(digits, radix as nat) {
                    digits_value_grows(digits, radix as nat, i - from + 1);
                }
            }
            return None;
        }
        value = wide as u64;
        i = i + 1;
    }
    assert(digits.take(i - from) =~= digits);
    Some(value)
}

/// The character of a hexadecimal digit, in lower case.
pub open spec fn hex_char(digit: nat) -> char {
    if digit < 10 {
        (48 + digit) as char
    } else {
        (87 + digit) as char
    }
}

/// Bytes in hexadecimal, two lower-case digits each.
pub open spec fn hex(bytes: Seq<u8>) -> Seq<char>
    decreases bytes.len(),
{
    if bytes.len() == 0 {
        Seq::empty()
    } else {
        hex(bytes.drop_last()).push(hex_char((bytes.last() / 16) as nat)).push(
            hex_char((bytes.last() % 16) as nat),
        )
    }
}

fn hex_digit(digit: u8) -> (c: char)
    requires
        digit < 16,
    ensures
        c == hex_char(digit as nat),
{
    if digit < 10 {
        (48 + digit) as char
    } else {
        (87 + digit) as char
    }
}

/// Writes bytes in hexadecimal.
pub fn hex_text(bytes: &[u8]) -> (text: String)
    ensures
        text@ == hex(bytes@),
{
    let mut text = String::new();
    for i in 0..bytes.len()
        invariant
            text@ == hex(bytes@.take(i as int)),
    {
        text.push(hex_digit(bytes[i] / 16));
        text.push(hex_digit(bytes[i] % 16));
        assert(bytes@.take(i + 1).drop_last() =~= bytes@.take(i as int));
    }
    assert(bytes@.take(bytes@.len() as int) =~= bytes@);
    text
}

/// A number in decimal has no digit but those from `0` to `9`, begins with `0` only where it is
/// zero, and its digits spell it again, each counting ten times the one after it.
pub proof fn decimals_spell_their_number(number: nat)
    ensures
        decimal(number).len() > 0,
        forall|i: int| 0 <= i < decimal(number).len() ==> '0' <= #[trigger] decimal(number)[i] <= '9',
        decimal(number)[0] == '0' <==> number == 0,
        spelled(decimal(number)) == number,
    decreases number,
{
    if number >= 10 {
        let front = decimal(number / 10);
        decimals_spell_their_number(number / 10);
        let whole = decimal(number);
        assert(whole.drop_last() =~= front);
        assert(whole[0] == front[0]);
        assert forall|i: int| 0 <= i < whole.len() implies '0' <= #[trigger] whole[i] <= '9' by {
            if i < front.len() {
                assert(whole[i] == front[i]);
            }
        }
    } else {
        assert(decimal(number).drop_last() =~= Seq::<char>::empty());
        reveal_with_fuel(spelled, 2);
    }
}

/// The number that decimal digits spell.
pub open spec fn spelled(digits: Seq<char>) -> nat
    decreases digits.len(),
{
    if digits.len() == 0 {
        0
    } else {
        (spelled(digits.drop_last()) * 10 + (digits.last() as int - '0' as int)) as nat
    }
}

/// Bytes in hexadecimal have two digits for each byte, the higher one first, in lower case.
pub proof fn bytes_have_two_digits_each(bytes: Seq<u8>, at: int)
    requires
        0 <= at < bytes.len(),
    ensures
        hex(bytes).len() == 2 * bytes.len(),
        is_low_digit(hex(bytes)[2 * at], bytes[at] as int / 16),
        is_low_digit(hex(bytes)[2 * at + 1], bytes[at] as int % 16),
    decreases bytes.len(),
{
    let front = bytes.drop_last();
    if front.len() > 0 {
        bytes_have_two_digits_each(
            front,
            if at < front.len() {
                at
            } else {
                0
            },
        );
    } else {
        assert(hex(front) =~= Seq::<char>::empty());
    }
    if at < front.len() {
        assert(hex(bytes)[2 * at] == hex(front)[2 * at]);
        assert(hex(bytes)[2 * at + 1] == hex(front)[2 * at + 1]);
    }
}

/// Whether a character is the hexadecimal digit of a value, in lower case.
pub open spec fn is_low_digit(digit: char, value: int) -> bool {
    ('0' <= digit <= '9' && digit as int - '0' as int == value) || ('a' <= digit <= 'f'
        && digit as int - 'a' as int + 10 == value)
}

/// A line ends at a line feed, with a carriage return before it or without; what follows the line
/// feed are further lines. A text without a line feed is one line, unless it is empty.
pub proof fn lines_are_split_at_line_feeds(line: Seq<char>, rest: Seq<char>)
    requires
        !line.contains('\n'),
    ensures
        ({
            let kept = if line.len() > 0 && line.last() == '\r' {
                line.drop_last()
            } else {
                line
            };
            lines_of(line + seq!['\n'] + rest) == seq![kept] + lines_of(rest)
        }),
        lines_of(line) == if line.len() == 0 {
            Seq::<Seq<char>>::empty()
        } else {
            seq![line]
        },
{
    let whole = line + seq!['\n'] + rest;
    let n = line.len() as int;
    assert forall|i: int| 0 <= i < n implies #[trigger] line[i] != '\n' by {
        assert(line.contains(line[i]));
    }
    assert forall|i: int| 0 <= i < n implies #[trigger] whole[i] != '\n' by {
        assert(whole[i] == line[i]);
    }
    line_feed_is(whole, n);
    line_feed_is(line, n);
    assert(whole.take(n) =~= line);
    assert(whole.skip(n + 1) =~= rest);
}

/// Two texts without a zero character are ordered alike exactly where they are equal but for the case
/// of ASCII letters.
pub proof fn folding_keeps_all_but_case(left: Seq<char>, right: Seq<char>)
    requires
        !left.contains('\0'),
        !right.contains('\0'),
    ensures
        folded(left) == folded(right) <==> left.len() == right.len() && forall|i: int|
            0 <= i < left.len() ==> is_same_letter(#[trigger] left[i], right[i]),
        folded(left).len() == left.len(),
        forall|i: int|
            0 <= i < left.len() ==> !('A' <= #[trigger] folded(left)[i] <= 'Z') && is_same_letter(
                folded(left)[i],
                left[i],
            ),
{
    folded_plainly(left);
    folded_plainly(right);
    if folded(left) == folded(right) {
        assert forall|i: int| 0 <= i < left.len() implies is_same_letter(
            #[trigger] left[i],
            right[i],
        ) by {
            assert(folded(left)[i] == folded(right)[i]);
        }
    }
    if left.len() == right.len() && forall|i: int|
        0 <= i < left.len() ==> is_same_letter(#[trigger] left[i], right[i]) {
        assert forall|i: int| 0 <= i < left.len() implies folded(left)[i] == folded(right)[i] by {
            assert(is_same_letter(left[i], right[i]));
        }
        assert(folded(left) =~= folded(right));
    }
}

/// Whether two characters are equal but for the case of an ASCII letter.
pub open spec fn is_same_letter(left: char, right: char) -> bool {
    ||| left == right
    ||| 'A' <= left <= 'Z' && right as int == left as int + 32
    ||| 'A' <= right <= 'Z' && left as int == right as int + 32
}

proof fn folded_plainly(text: Seq<char>)
    requires
        !text.contains('\0'),
    ensures
        folded(text).len() == text.len(),
        forall|i: int| 0 <= i < text.len() ==> #[trigger] folded(text)[i] == ascii_lower(text[i]),
{
    assert forall|i: int| 0 <= i < text.len() implies text[i] != '\0' by {
        assert(text.contains(text[i]));
    }
    let n = text.len() as int;
    before_zero_is(text, n);
    assert(text.take(n) =~= text);
    assert(text.skip(n) =~= Seq::<char>::empty());
    assert(encode_utf8(Seq::<char>::empty()).len() == 0) by {
        reveal_with_fuel(encode_utf8, 1);
    }
}

/// A digit counts what it shows: in radix ten the characters from `0` to `9` and no others, in radix
/// sixteen also the letters from `a` to `f`, large or small.
pub proof fn digits_count_what_they_show(byte: u8)
    ensures
        digit_value(byte, 10) is Some <==> '0' as int <= byte <= '9' as int,
        digit_value(byte, 16) is Some <==> ('0' as int <= byte <= '9' as int) || ('a' as int <= byte
            <= 'f' as int) || ('A' as int <= byte <= 'F' as int),
        digit_value(byte, 10) matches Some(value) ==> value == byte - '0' as int,
        digit_value(byte, 16) matches Some(value) ==> value == if byte <= '9' as int {
            byte - '0' as int
        } else if byte <= 'F' as int {
            byte - 'A' as int + 10
        } else {
            byte - 'a' as int + 10
        },
{
}

/// A number that was written in decimal is read as that number again, with a plus sign before it or
/// without, unless it is above the limit.
pub proof fn decimals_are_read_back(number: nat, max: nat)
    ensures
        ({
            let bytes = decimal(number).map_values(|c: char| c as u8);
            let read = if number <= max {
                Some(number)
            } else {
                None
            };
            unsigned_value(bytes, 10, max) == read && unsigned_value(seq![43u8] + bytes, 10, max)
                == read
        }),
{
    let bytes = decimal(number).map_values(|c: char| c as u8);
    decimals_spell_their_number(number);
    decimals_have_their_value(number);
    assert(bytes[0] != 43) by {
        assert('0' <= decimal(number)[0] <= '9');
    }
    assert((seq![43u8] + bytes).skip(1) =~= bytes);
}

proof fn decimals_have_their_value(number: nat)
    ensures
        all_digits(decimal(number).map_values(|c: char| c as u8), 10),
        digits_value(decimal(number).map_values(|c: char| c as u8), 10) == number,
    decreases number,
{
    let bytes = decimal(number).map_values(|c: char| c as u8);
    if number >= 10 {
        let front = decimal(number / 10).map_values(|c: char| c as u8);
        decimals_have_their_value(number / 10);
        assert(bytes.drop_last() =~= front);
        assert(bytes.last() == 48 + number % 10);
        assert forall|i: int| 0 <= i < bytes.len() implies digit_value(
            #[trigger] bytes[i],
            10,
        ) is Some by {
            if i < front.len() {
                assert(bytes[i] == front[i]);
            }
        }
    } else {
        assert(bytes.drop_last() =~= Seq::<u8>::empty());
        assert(bytes.last() == 48 + number);
        reveal_with_fuel(digits_value, 2);
    }
}

} // verus!
