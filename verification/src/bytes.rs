//! Bytes: comparison, splitting, and the parts of paths.
use vstd::prelude::*;

verus! {

/// The views of a list of byte strings.
pub open spec fn byte_strings(list: Seq<Vec<u8>>) -> Seq<Seq<u8>> {
    list.map_values(|bytes: Vec<u8>| bytes@)
}

/// Whether two byte strings are the same.
pub fn same_bytes(left: &[u8], right: &[u8]) -> (equal: bool)
    ensures
        equal == (left@ == right@),
{
    if left.len() != right.len() {
        return false;
    }
    for i in 0..left.len()
        invariant
            left@.len() == right@.len(),
            forall|j: int| 0 <= j < i ==> left@[j] == right@[j],
    {
        if left[i] != right[i] {
            return false;
        }
    }
    assert(left@ =~= right@);
    true
}

/// Whether a byte string holds a byte.
pub fn has_byte(bytes: &[u8], byte: u8) -> (result: bool)
    ensures
        result == bytes@.contains(byte),
{
    for i in 0..bytes.len()
        invariant
            forall|j: int| 0 <= j < i ==> bytes@[j] != byte,
    {
        if bytes[i] == byte {
            return true;
        }
    }
    false
}

/// Whether a list holds a number.
pub fn has_number(list: &Vec<u64>, number: u64) -> (result: bool)
    ensures
        result == list@.contains(number),
{
    for i in 0..list.len()
        invariant
            forall|j: int| 0 <= j < i ==> list@[j] != number,
    {
        if list[i] == number {
            return true;
        }
    }
    false
}

/// Copies a part of a byte string.
pub fn part(bytes: &[u8], from: usize, to: usize) -> (result: Vec<u8>)
    requires
        from <= to <= bytes@.len(),
    ensures
        result@ == bytes@.subrange(from as int, to as int),
{
    let mut result: Vec<u8> = Vec::new();
    let mut i: usize = from;
    while i < to
        invariant
            from <= i <= to <= bytes@.len(),
            result@ == bytes@.subrange(from as int, i as int),
        decreases to - i,
    {
        result.push(bytes[i]);
        assert(bytes@.subrange(from as int, i + 1) =~= bytes@.subrange(from as int, i as int).push(
            bytes@[i as int],
        ));
        i = i + 1;
    }
    result
}

/// Whether a byte string continues with another from some position on.
pub fn continues_with(bytes: &[u8], from: usize, prefix: &[u8]) -> (result: bool)
    requires
        from <= bytes@.len(),
    ensures
        result == prefix@.is_prefix_of(bytes@.skip(from as int)),
{
    let ghost rest = bytes@.skip(from as int);
    let total: usize = bytes.len();
    if total - from < prefix.len() {
        return false;
    }
    for i in 0..prefix.len()
        invariant
            from <= total,
            total == bytes@.len(),
            rest == bytes@.skip(from as int),
            prefix@.len() <= rest.len(),
            forall|j: int| 0 <= j < i ==> prefix@[j] == rest[j],
    {
        assert(rest[i as int] == bytes@[from + i]);
        if bytes[from + i] != prefix[i] {
            assert(!prefix@.is_prefix_of(rest)) by {
                if prefix@.is_prefix_of(rest) {
                    assert(prefix@[i as int] == rest.subrange(0, prefix@.len() as int)[i as int]);
                }
            }
            return false;
        }
    }
    assert(prefix@ =~= rest.subrange(0, prefix@.len() as int));
    true
}

/// How many bytes come before the first separator.
pub open spec fn until(bytes: Seq<u8>, separator: u8) -> nat
    decreases bytes.len(),
{
    if bytes.len() > 0 && bytes[0] != separator {
        1 + until(bytes.drop_first(), separator)
    } else {
        0
    }
}

/// Where the first separator stands.
pub proof fn until_is(bytes: Seq<u8>, separator: u8, n: int)
    requires
        0 <= n <= bytes.len(),
        forall|i: int| 0 <= i < n ==> bytes[i] != separator,
        n == bytes.len() || bytes[n] == separator,
    ensures
        until(bytes, separator) == n,
    decreases n,
{
    if n > 0 {
        let rest = bytes.drop_first();
        assert forall|i: int| 0 <= i < n - 1 implies rest[i] != separator by {
            assert(rest[i] == bytes[i + 1]);
        }
        if n < bytes.len() {
            assert(rest[n - 1] == bytes[n]);
        }
        until_is(rest, separator, n - 1);
    }
}

/// The bytes before the first separator are none, and it stands after them where there is one.
pub proof fn until_bounds(bytes: Seq<u8>, separator: u8)
    ensures
        until(bytes, separator) <= bytes.len(),
        forall|i: int| 0 <= i < until(bytes, separator) ==> bytes[i] != separator,
        until(bytes, separator) < bytes.len() ==> bytes[until(bytes, separator) as int]
            == separator,
    decreases bytes.len(),
{
    if bytes.len() > 0 && bytes[0] != separator {
        let rest = bytes.drop_first();
        until_bounds(rest, separator);
        assert forall|i: int| 0 <= i < until(bytes, separator) implies bytes[i] != separator by {
            if i > 0 {
                assert(bytes[i] == rest[i - 1]);
            }
        }
    }
}

/// The pieces between separators: one more than there are separators.
pub open spec fn pieces(bytes: Seq<u8>, separator: u8) -> Seq<Seq<u8>>
    decreases bytes.len(),
{
    let n = until(bytes, separator);
    if n < bytes.len() {
        seq![bytes.take(n as int)] + pieces(bytes.skip(n as int + 1), separator)
    } else {
        seq![bytes]
    }
}

/// The first piece is what comes before the first separator.
pub proof fn pieces_first(head: Seq<u8>, tail: Seq<u8>, separator: u8)
    requires
        !head.contains(separator),
    ensures
        pieces(head + seq![separator] + tail, separator) == seq![head] + pieces(tail, separator),
{
    let whole = head + seq![separator] + tail;
    assert forall|i: int| 0 <= i < head.len() implies whole[i] != separator by {
        assert(whole[i] == head[i]);
    }
    assert(whole[head.len() as int] == separator);
    until_is(whole, separator, head.len() as int);
    assert(whole.take(head.len() as int) =~= head);
    assert(whole.skip(head.len() as int + 1) =~= tail);
}

/// Without a separator there is one piece.
pub proof fn pieces_whole(bytes: Seq<u8>, separator: u8)
    requires
        !bytes.contains(separator),
    ensures
        pieces(bytes, separator) == seq![bytes],
{
    assert forall|i: int| 0 <= i < bytes.len() implies bytes[i] != separator by {
        assert(bytes.contains(bytes[i]));
    }
    until_is(bytes, separator, bytes.len() as int);
}

/// Splits a byte string at its separators.
pub fn split(bytes: &[u8], separator: u8) -> (list: Vec<Vec<u8>>)
    ensures
        byte_strings(list@) == pieces(bytes@, separator),
{
    let mut list: Vec<Vec<u8>> = Vec::new();
    let mut from: usize = 0;
    assert(bytes@.skip(0) =~= bytes@);
    assert(byte_strings(list@) + pieces(bytes@.skip(0), separator) =~= pieces(bytes@, separator));
    loop
        invariant
            from <= bytes@.len(),
            byte_strings(list@) + pieces(bytes@.skip(from as int), separator) == pieces(
                bytes@,
                separator,
            ),
        decreases bytes@.len() - from,
    {
        let ghost rest = bytes@.skip(from as int);
        let ghost done = byte_strings(list@);
        let mut to: usize = from;
        while to < bytes.len() && bytes[to] != separator
            invariant
                from <= to <= bytes@.len(),
                forall|i: int| from <= i < to ==> bytes@[i] != separator,
            decreases bytes@.len() - to,
        {
            to = to + 1;
        }
        proof {
            assert forall|i: int| 0 <= i < to - from implies rest[i] != separator by {
                assert(rest[i] == bytes@[from + i]);
            }
            if to < bytes@.len() {
                assert(rest[to - from] == bytes@[to as int]);
            }
            until_is(rest, separator, to - from);
        }
        let piece: Vec<u8> = part(bytes, from, to);
        list.push(piece);
        assert(byte_strings(list@) =~= done.push(piece@));
        if to == bytes.len() {
            assert(piece@ =~= rest);
            assert(done + seq![rest] =~= done.push(piece@));
            return list;
        }
        proof {
            assert(piece@ =~= rest.take(to - from));
            assert(rest.skip(to - from + 1) =~= bytes@.skip(to + 1));
            let tail = pieces(bytes@.skip(to + 1), separator);
            assert(done + (seq![piece@] + tail) =~= done.push(piece@) + tail);
        }
        from = to + 1;
    }
}

/// White space of ASCII.
pub open spec fn is_space(byte: u8) -> bool {
    byte == 32 || byte == 9 || byte == 10 || byte == 12 || byte == 13
}

/// Tests a byte.
pub fn space(byte: u8) -> (result: bool)
    ensures
        result == is_space(byte),
{
    byte == 32 || byte == 9 || byte == 10 || byte == 12 || byte == 13
}

/// How many bytes at the front are white space, or are not.
pub open spec fn leading(bytes: Seq<u8>, white: bool) -> nat
    decreases bytes.len(),
{
    if bytes.len() > 0 && is_space(bytes[0]) == white {
        1 + leading(bytes.drop_first(), white)
    } else {
        0
    }
}

proof fn leading_is(bytes: Seq<u8>, white: bool, n: int)
    requires
        0 <= n <= bytes.len(),
        forall|i: int| 0 <= i < n ==> is_space(#[trigger] bytes[i]) == white,
        n == bytes.len() || is_space(bytes[n]) != white,
    ensures
        leading(bytes, white) == n,
    decreases n,
{
    if n > 0 {
        let rest = bytes.drop_first();
        assert forall|i: int| 0 <= i < n - 1 implies is_space(#[trigger] rest[i]) == white by {
            assert(rest[i] == bytes[i + 1]);
        }
        if n < bytes.len() {
            assert(rest[n - 1] == bytes[n]);
        }
        leading_is(rest, white, n - 1);
        assert(is_space(bytes[0]) == white);
    }
}

/// Goes to the end of a run of white space, or of anything else.
pub fn run_end(bytes: &[u8], from: usize, white: bool) -> (to: usize)
    requires
        from <= bytes@.len(),
    ensures
        from <= to <= bytes@.len(),
        to - from == leading(bytes@.skip(from as int), white),
{
    let ghost rest = bytes@.skip(from as int);
    let mut to: usize = from;
    while to < bytes.len() && space(bytes[to]) == white
        invariant
            from <= to <= bytes@.len(),
            forall|i: int| from <= i < to ==> is_space(#[trigger] bytes@[i]) == white,
        decreases bytes@.len() - to,
    {
        to = to + 1;
    }
    proof {
        assert forall|i: int| 0 <= i < to - from implies is_space(#[trigger] rest[i]) == white by {
            assert(rest[i] == bytes@[from + i]);
        }
        if to < bytes@.len() {
            assert(rest[to - from] == bytes@[to as int]);
        }
        leading_is(rest, white, to - from);
    }
    to
}

/// A piece of a path that names something.
pub open spec fn is_component() -> spec_fn(Seq<u8>) -> bool {
    |piece: Seq<u8>| piece.len() > 0 && piece != seq![46u8]
}

/// Whether a path starts at the root.
pub open spec fn is_absolute(path: Seq<u8>) -> bool {
    path.len() > 0 && path[0] == 47
}

/// The components of a path, without the places where it stays where it is.
pub open spec fn components(path: Seq<u8>) -> Seq<Seq<u8>> {
    pieces(path, 47).filter(is_component())
}

/// Whether a path begins with the place where it stands.
pub open spec fn starts_here(path: Seq<u8>) -> bool {
    pieces(path, 47)[0] == seq![46u8]
}

/// Whether two paths are the same: they start at the same place and have the same components.
pub open spec fn is_same_path(left: Seq<u8>, right: Seq<u8>) -> bool {
    &&& is_absolute(left) == is_absolute(right)
    &&& starts_here(left) == starts_here(right)
    &&& components(left) == components(right)
}

/// What an absolute path names in its directory: its last component, unless it leads upwards.
pub open spec fn file_name(path: Seq<u8>) -> Option<Seq<u8>> {
    let list = components(path);
    if list.len() > 0 && list.last() != seq![46u8, 46u8] {
        Some(list.last())
    } else {
        None
    }
}

fn is_dot(piece: &[u8]) -> (result: bool)
    ensures
        result == (piece@ == seq![46u8]),
{
    if piece.len() == 1 && piece[0] == 46 {
        assert(piece@ =~= seq![46u8]);
        true
    } else {
        assert(seq![46u8].len() == 1 && seq![46u8][0] == 46);
        false
    }
}

/// Reads a path: its components, and whether it begins with the place where it stands.
fn path_parts(path: &[u8]) -> (parts: (Vec<Vec<u8>>, bool))
    ensures
        byte_strings(parts.0@) == components(path@),
        parts.1 == starts_here(path@),
{
    let list: Vec<Vec<u8>> = split(path, 47);
    let ghost all = byte_strings(list@);
    assert(all.len() > 0);
    assert(all[0] == list@[0]@);
    let here: bool = is_dot(list[0].as_slice());
    let mut named: Vec<Vec<u8>> = Vec::new();
    assert(byte_strings(named@) =~= all.take(0).filter(is_component())) by {
        reveal(Seq::filter);
    }
    for i in 0..list.len()
        invariant
            all == byte_strings(list@),
            byte_strings(named@) == all.take(i as int).filter(is_component()),
    {
        let ghost before = byte_strings(named@);
        proof {
            crate::table::filter_step(all, is_component(), i as int);
        }
        let piece: &[u8] = list[i].as_slice();
        if piece.len() > 0 && !is_dot(piece) {
            let copy: Vec<u8> = part(piece, 0, piece.len());
            assert(copy@ =~= all[i as int]);
            named.push(copy);
            assert(byte_strings(named@) =~= before.push(copy@));
        }
    }
    assert(all.take(all.len() as int) =~= all);
    (named, here)
}

fn absolute(path: &[u8]) -> (result: bool)
    ensures
        result == is_absolute(path@),
{
    path.len() > 0 && path[0] == 47
}

/// Compares two paths.
pub fn same_path(left: &[u8], right: &[u8]) -> (result: bool)
    ensures
        result == is_same_path(left@, right@),
{
    let (ours, here): (Vec<Vec<u8>>, bool) = path_parts(left);
    let (theirs, there): (Vec<Vec<u8>>, bool) = path_parts(right);
    let ghost first = byte_strings(ours@);
    let ghost second = byte_strings(theirs@);
    assert(first.len() == ours@.len() && second.len() == theirs@.len());
    if absolute(left) != absolute(right) || here != there || ours.len() != theirs.len() {
        return false;
    }
    for i in 0..ours.len()
        invariant
            first == byte_strings(ours@) && first == components(left@),
            second == byte_strings(theirs@) && second == components(right@),
            ours@.len() == theirs@.len(),
            forall|j: int| 0 <= j < i ==> first[j] == second[j],
    {
        assert(first[i as int] == ours@[i as int]@ && second[i as int] == theirs@[i as int]@);
        if !same_bytes(ours[i].as_slice(), theirs[i].as_slice()) {
            return false;
        }
    }
    assert(first =~= second);
    true
}

/// Whether an absolute path names a file.
pub fn names_file(path: &[u8], name: &[u8]) -> (result: bool)
    requires
        name@.len() > 0,
        name@ != seq![46u8],
        name@ != seq![46u8, 46u8],
    ensures
        result == (is_absolute(path@) && file_name(path@) == Some(name@)),
{
    if !absolute(path) {
        return false;
    }
    let (list, _): (Vec<Vec<u8>>, bool) = path_parts(path);
    let ghost all = byte_strings(list@);
    if list.len() == 0 {
        return false;
    }
    assert(all.last() == list@[list@.len() - 1]@);
    same_bytes(list[list.len() - 1].as_slice(), name)
}

} // verus!
