//! Character sequences: whitespace, trimming, case folding, splitting and
//! joining, each with a mathematical model over `Seq<char>`.

use vstd::prelude::*;

verus! {

/// Whether a character carries the Unicode `White_Space` property, as
/// `char::is_whitespace` of the standard library decides it.
pub uninterp spec fn unicode_white_space(c: char) -> bool;

/// Whitespace in the sense of trimming: the space character and every other
/// character with the Unicode `White_Space` property.
pub open spec fn is_whitespace(c: char) -> bool {
    c == ' ' || unicode_white_space(c)
}

/// Calls `char::is_whitespace`. Trusted: the answer is the Unicode
/// `White_Space` property of the character, which the space character has.
#[verifier::external_body]
fn char_is_whitespace(c: char) -> (b: bool)
    ensures
        b == (c == ' ' || unicode_white_space(c)),
{
    c.is_whitespace()
}

/// The number of whitespace characters at the front of `s`.
pub open spec fn leading_whitespace(s: Seq<char>) -> nat
    decreases s.len(),
{
    if s.len() > 0 && is_whitespace(s[0]) {
        1 + leading_whitespace(s.drop_first())
    } else {
        0
    }
}

/// The number of whitespace characters at the back of `s`.
pub open spec fn trailing_whitespace(s: Seq<char>) -> nat
    decreases s.len(),
{
    if s.len() > 0 && is_whitespace(s.last()) {
        1 + trailing_whitespace(s.drop_last())
    } else {
        0
    }
}

/// `s` without its leading and trailing whitespace.
pub open spec fn trim(s: Seq<char>) -> Seq<char> {
    let rest = s.skip(leading_whitespace(s) as int);
    rest.take(rest.len() - trailing_whitespace(rest))
}

/// The ASCII lower-case form of a character: `A`..`Z` go to `a`..`z`, every
/// other character stays.
pub open spec fn lower_char(c: char) -> char {
    if 'A' <= c && c <= 'Z' {
        ((c as u8 + 32) as u8) as char
    } else {
        c
    }
}

/// The ASCII lower-case form of a sequence, character by character.
pub open spec fn lower(s: Seq<char>) -> Seq<char> {
    Seq::new(s.len(), |i: int| lower_char(s[i]))
}

/// The position of the first `x` in `s`, or the length of `s` if there is
/// none.
pub open spec fn first_index<T>(s: Seq<T>, x: T) -> nat
    decreases s.len(),
{
    if s.len() == 0 || s[0] == x {
        0
    } else {
        1 + first_index(s.drop_first(), x)
    }
}

/// The pieces of `s` between occurrences of `sep`. There is always at least
/// one piece; two separators in a row, or one at either end, give an empty
/// piece.
pub open spec fn split(s: Seq<char>, sep: char) -> Seq<Seq<char>>
    decreases s.len(),
{
    let i = first_index(s, sep) as int;
    if i >= s.len() {
        seq![s]
    } else {
        seq![s.take(i)] + split(s.skip(i + 1), sep)
    }
}

/// The pieces put back together with `sep` between neighbours.
pub open spec fn join(pieces: Seq<Seq<char>>, sep: char) -> Seq<char>
    decreases pieces.len(),
{
    if pieces.len() == 0 {
        Seq::empty()
    } else if pieces.len() == 1 {
        pieces[0]
    } else {
        join(pieces.drop_last(), sep) + seq![sep] + pieces.last()
    }
}

/// The pieces of `chars` that `bounds` cuts out, in order.
pub open spec fn slices(chars: Seq<char>, bounds: Seq<(usize, usize)>) -> Seq<Seq<char>> {
    Seq::new(bounds.len(), |i: int| chars.subrange(bounds[i].0 as int, bounds[i].1 as int))
}

/// Whether every pair in `bounds` is a range within the first `limit`
/// positions.
pub open spec fn bounds_within(bounds: Seq<(usize, usize)>, limit: int) -> bool {
    forall|i: int| 0 <= i < bounds.len() ==> (#[trigger] bounds[i]).0 <= bounds[i].1 <= limit
}

/// The characters of an optional string.
pub open spec fn text_of(s: Option<String>) -> Option<Seq<char>> {
    match s {
        Some(s) => Some(s@),
        None => None,
    }
}

/// An item is first found at `j` when it stands there and nowhere before;
/// when it stands nowhere, the first index is the length.
pub proof fn lemma_first_index<T>(s: Seq<T>, x: T, j: int)
    requires
        0 <= j <= s.len(),
        forall|k: int| 0 <= k < j ==> s[k] != x,
        j == s.len() || s[j] == x,
    ensures
        first_index(s, x) == j,
    decreases j,
{
    if j > 0 {
        lemma_first_index(s.drop_first(), x, j - 1);
    }
}

/// The first index of an item is at most the length, the item stands there
/// if it is less, and the item stands nowhere before it.
pub proof fn lemma_first_index_is_first<T>(s: Seq<T>, x: T)
    ensures
        first_index(s, x) <= s.len(),
        first_index(s, x) < s.len() ==> s[first_index(s, x) as int] == x,
        forall|k: int| 0 <= k < first_index(s, x) ==> s[k] != x,
    decreases s.len(),
{
    if s.len() == 0 || s[0] == x {
    } else {
        let rest = s.drop_first();
        lemma_first_index_is_first(rest, x);
        assert forall|k: int| 0 <= k < first_index(s, x) implies s[k] != x by {
            if k > 0 {
                assert(s[k] == rest[k - 1]);
            }
        }
    }
}

/// Taking off the leading whitespace leaves none.
pub proof fn lemma_leading_removed(s: Seq<char>)
    ensures
        leading_whitespace(s) <= s.len(),
        leading_whitespace(s.skip(leading_whitespace(s) as int)) == 0,
    decreases s.len(),
{
    if s.len() > 0 && is_whitespace(s[0]) {
        lemma_leading_removed(s.drop_first());
        assert(s.skip(leading_whitespace(s) as int) =~= s.drop_first().skip(
            leading_whitespace(s.drop_first()) as int,
        ));
    } else {
        assert(s.skip(0) =~= s);
    }
}

/// Taking off the trailing whitespace leaves none.
pub proof fn lemma_trailing_removed(s: Seq<char>)
    ensures
        trailing_whitespace(s) <= s.len(),
        trailing_whitespace(s.take(s.len() - trailing_whitespace(s))) == 0,
    decreases s.len(),
{
    if s.len() > 0 && is_whitespace(s.last()) {
        lemma_trailing_removed(s.drop_last());
        assert(s.take(s.len() - trailing_whitespace(s)) =~= s.drop_last().take(
            s.drop_last().len() - trailing_whitespace(s.drop_last()),
        ));
    } else {
        assert(s.take(s.len() as int) =~= s);
    }
}

/// A sequence that neither begins nor ends with whitespace is its own
/// trimming.
pub proof fn lemma_trim_of_trimmed(s: Seq<char>)
    requires
        s.len() > 0 ==> !is_whitespace(s[0]) && !is_whitespace(s.last()),
    ensures
        trim(s) == s,
{
    assert(s.skip(0) =~= s);
    assert(s.take(s.len() as int) =~= s);
}

/// Trimming leaves a sequence that neither begins nor ends with whitespace,
/// and trimming it again changes nothing.
pub proof fn lemma_trim_is_trimmed(s: Seq<char>)
    ensures
        trim(s).len() > 0 ==> !is_whitespace(trim(s)[0]) && !is_whitespace(trim(s).last()),
        trim(trim(s)) == trim(s),
{
    lemma_leading_removed(s);
    let rest = s.skip(leading_whitespace(s) as int);
    lemma_trailing_removed(rest);
    let t = trim(s);
    if t.len() > 0 {
        assert(t[0] == rest[0]);
    }
    lemma_trim_of_trimmed(t);
}

/// A space in front of a sequence that neither begins nor ends with
/// whitespace is trimmed away, and nothing else is.
pub proof fn lemma_trim_after_space(s: Seq<char>)
    requires
        s.len() > 0,
        !is_whitespace(s[0]),
        !is_whitespace(s.last()),
    ensures
        trim(seq![' '] + s) == s,
{
    let padded = seq![' '] + s;
    assert(padded.drop_first() =~= s);
    assert(leading_whitespace(s) == 0);
    assert(is_whitespace(padded[0]));
    assert(leading_whitespace(padded) == 1);
    assert(padded.skip(1) =~= s);
    assert(s.take(s.len() as int) =~= s);
}

/// A space on either side of a sequence that neither begins nor ends with
/// whitespace is trimmed away, and nothing else is.
pub proof fn lemma_trim_between_spaces(s: Seq<char>)
    requires
        s.len() > 0,
        !is_whitespace(s[0]),
        !is_whitespace(s.last()),
    ensures
        trim(seq![' '] + s + seq![' ']) == s,
{
    let padded = seq![' '] + s + seq![' '];
    let rest = s + seq![' '];
    assert(padded.drop_first() =~= rest);
    assert(leading_whitespace(rest) == 0);
    assert(is_whitespace(padded[0]));
    assert(leading_whitespace(padded) == 1);
    assert(padded.skip(1) =~= rest);
    assert(rest.drop_last() =~= s);
    assert(trailing_whitespace(s) == 0);
    assert(is_whitespace(rest.last()));
    assert(trailing_whitespace(rest) == 1);
    assert(rest.take(rest.len() - 1) =~= s);
}

/// A single space is trimmed to nothing.
pub proof fn lemma_trim_space()
    ensures
        trim(seq![' ']) == Seq::<char>::empty(),
{
    let space = seq![' '];
    assert(is_whitespace(space[0]));
    assert(space.drop_first() =~= Seq::<char>::empty());
    assert(leading_whitespace(space.drop_first()) == 0);
    assert(leading_whitespace(space) == 1);
    assert(trim(space) =~= Seq::<char>::empty());
}

/// There is always at least one piece.
pub proof fn lemma_split_has_piece(s: Seq<char>, sep: char)
    ensures
        split(s, sep).len() >= 1,
    decreases s.len(),
{
    let i = first_index(s, sep) as int;
    if i < s.len() {
        lemma_split_has_piece(s.skip(i + 1), sep);
    }
}

/// The first piece is empty exactly when the sequence is empty or begins
/// with a separator, and the last piece is empty exactly when the sequence
/// is empty or ends with one.
pub proof fn lemma_split_ends(s: Seq<char>, sep: char)
    ensures
        split(s, sep).len() >= 1,
        split(s, sep).first().len() > 0 <==> s.len() > 0 && s[0] != sep,
        split(s, sep).last().len() > 0 <==> s.len() > 0 && s.last() != sep,
    decreases s.len(),
{
    let i = first_index(s, sep) as int;
    lemma_first_index_is_first(s, sep);
    if i < s.len() {
        let rest = s.skip(i + 1);
        lemma_split_ends(rest, sep);
        assert(split(s, sep).last() == split(rest, sep).last());
        if rest.len() > 0 {
            assert(rest.last() == s.last());
        }
    } else if s.len() > 0 {
        assert(s.last() == s[s.len() - 1]);
    }
}

/// A sequence without a separator is its own single piece.
pub proof fn lemma_split_without_separator(s: Seq<char>, sep: char)
    requires
        !s.contains(sep),
    ensures
        split(s, sep) == seq![s],
{
    lemma_first_index_is_first(s, sep);
}

/// Splitting distributes over a separator: the pieces of `a`, then the
/// pieces of `b`.
pub proof fn lemma_split_at_separator(a: Seq<char>, b: Seq<char>, sep: char)
    ensures
        split(a + seq![sep] + b, sep) == split(a, sep) + split(b, sep),
    decreases a.len(),
{
    let s = a + seq![sep] + b;
    let i = first_index(a, sep) as int;
    lemma_first_index_is_first(a, sep);
    assert forall|k: int| 0 <= k < i implies s[k] != sep by {
        assert(s[k] == a[k]);
    }
    lemma_first_index(s, sep, i);
    assert(s.take(i) =~= a.take(i));
    if i < a.len() {
        assert(s.skip(i + 1) =~= a.skip(i + 1) + seq![sep] + b);
        lemma_split_at_separator(a.skip(i + 1), b, sep);
        assert(split(s, sep) =~= split(a, sep) + split(b, sep));
    } else {
        assert(s.skip(i + 1) =~= b);
        assert(a.take(i) =~= a);
        assert(split(s, sep) =~= split(a, sep) + split(b, sep));
    }
}

/// Joining with a piece in front: the piece, a separator, and the rest
/// joined.
pub proof fn lemma_join_front(first: Seq<char>, rest: Seq<Seq<char>>, sep: char)
    requires
        rest.len() >= 1,
    ensures
        join(seq![first] + rest, sep) == first + seq![sep] + join(rest, sep),
    decreases rest.len(),
{
    let all = seq![first] + rest;
    if rest.len() == 1 {
        assert(all.drop_last() =~= seq![first]);
        assert(join(seq![first], sep) == first);
        assert(join(rest, sep) == rest[0]);
        assert(all.last() == rest[0]);
        assert(join(all, sep) =~= first + seq![sep] + join(rest, sep));
    } else {
        assert(all.drop_last() =~= seq![first] + rest.drop_last());
        lemma_join_front(first, rest.drop_last(), sep);
        assert(join(all, sep) =~= first + seq![sep] + join(rest, sep));
    }
}

/// Joining the pieces of a sequence gives the sequence back.
pub proof fn lemma_join_split(s: Seq<char>, sep: char)
    ensures
        join(split(s, sep), sep) == s,
    decreases s.len(),
{
    let i = first_index(s, sep) as int;
    lemma_first_index_is_first(s, sep);
    if i < s.len() {
        let rest = split(s.skip(i + 1), sep);
        lemma_split_has_piece(s.skip(i + 1), sep);
        lemma_join_split(s.skip(i + 1), sep);
        lemma_join_front(s.take(i), rest, sep);
        assert(s.take(i) + seq![sep] + s.skip(i + 1) =~= s);
    }
}

/// The characters of a string, in order.
pub fn to_chars(s: &str) -> (chars: Vec<char>)
    ensures
        chars@ == s@,
{
    let mut chars: Vec<char> = Vec::new();
    for c in it: s.chars()
        invariant
            it.seq() == s@,
            chars@ == s@.take(it.index()),
    {
        chars.push(c);
    }
    chars
}

/// The ASCII lower-case form of a character.
pub fn to_lower(c: char) -> (r: char)
    ensures
        r == lower_char(c),
{
    if 'A' <= c && c <= 'Z' {
        let code: u8 = c as u8;
        (code + 32) as char
    } else {
        c
    }
}

/// Whether the ASCII lower-case form of `chars[from..to]` is `key`.
pub fn lower_matches(chars: &Vec<char>, from: usize, to: usize, key: &Vec<char>) -> (b: bool)
    requires
        from <= to <= chars.len(),
    ensures
        b == (lower(chars@.subrange(from as int, to as int)) == key@),
{
    let ghost piece = chars@.subrange(from as int, to as int);
    if to - from != key.len() {
        return false;
    }
    let mut i: usize = 0;
    while i < key.len()
        invariant
            from <= to <= chars.len(),
            to - from == key.len(),
            i <= key.len(),
            piece == chars@.subrange(from as int, to as int),
            forall|k: int| 0 <= k < i ==> lower_char(#[trigger] piece[k]) == key@[k],
        decreases key.len() - i,
    {
        if to_lower(chars[from + i]) != key[i] {
            assert(lower(piece)[i as int] != key@[i as int]);
            return false;
        }
        i += 1;
    }
    assert(lower(piece) =~= key@);
    true
}

/// The ASCII lower-case form of `chars[from..to]`.
pub fn lowered(chars: &Vec<char>, from: usize, to: usize) -> (r: Vec<char>)
    requires
        from <= to <= chars.len(),
    ensures
        r@ == lower(chars@.subrange(from as int, to as int)),
{
    let ghost piece = chars@.subrange(from as int, to as int);
    let mut r: Vec<char> = Vec::new();
    let mut i: usize = from;
    while i < to
        invariant
            from <= i <= to <= chars.len(),
            piece == chars@.subrange(from as int, to as int),
            r@ == lower(piece.take(i - from)),
        decreases to - i,
    {
        r.push(to_lower(chars[i]));
        assert(r@ =~= lower(piece.take(i + 1 - from)));
        i += 1;
    }
    assert(piece.take(to - from) =~= piece);
    r
}

/// Whether `chars` begins with `prefix`.
pub fn starts_with(chars: &Vec<char>, prefix: &Vec<char>) -> (b: bool)
    ensures
        b == prefix@.is_prefix_of(chars@),
{
    if prefix.len() > chars.len() {
        return false;
    }
    let mut i: usize = 0;
    while i < prefix.len()
        invariant
            i <= prefix.len() <= chars.len(),
            forall|k: int| 0 <= k < i ==> prefix@[k] == chars@[k],
        decreases prefix.len() - i,
    {
        if prefix[i] != chars[i] {
            assert(chars@.subrange(0, prefix.len() as int)[i as int] != prefix@[i as int]);
            return false;
        }
        i += 1;
    }
    assert(prefix@ =~= chars@.subrange(0, prefix.len() as int));
    true
}

/// The bounds of `chars[from..]` without its leading and trailing
/// whitespace, as positions in `chars`.
pub fn trim_bounds(chars: &Vec<char>, from: usize) -> (bounds: (usize, usize))
    requires
        from <= chars.len(),
    ensures
        from <= bounds.0 <= bounds.1 <= chars.len(),
        chars@.subrange(bounds.0 as int, bounds.1 as int) == trim(chars@.skip(from as int)),
{
    let ghost tail = chars@.skip(from as int);
    let mut a: usize = from;
    while a < chars.len() && char_is_whitespace(chars[a])
        invariant
            from <= a <= chars.len(),
            leading_whitespace(chars@.skip(from as int)) == (a - from) + leading_whitespace(
                chars@.skip(a as int),
            ),
        decreases chars.len() - a,
    {
        assert(chars@.skip(a as int).drop_first() =~= chars@.skip(a + 1));
        a += 1;
    }
    let ghost rest = chars@.skip(a as int);
    assert(leading_whitespace(rest) == 0);
    assert(tail.skip(a - from) =~= rest);
    let mut b: usize = chars.len();
    assert(chars@.subrange(a as int, b as int) =~= rest);
    while b > a && char_is_whitespace(chars[b - 1])
        invariant
            a <= b <= chars.len(),
            trailing_whitespace(chars@.skip(a as int)) == (chars.len() - b) + trailing_whitespace(
                chars@.subrange(a as int, b as int),
            ),
        decreases b - a,
    {
        assert(chars@.subrange(a as int, b as int).drop_last() =~= chars@.subrange(
            a as int,
            b - 1,
        ));
        b -= 1;
    }
    assert(trailing_whitespace(chars@.subrange(a as int, b as int)) == 0);
    assert(rest.take(rest.len() - (chars.len() - b)) =~= chars@.subrange(a as int, b as int));
    (a, b)
}

/// A copy of `text` without its leading and trailing whitespace.
pub fn trimmed(text: &str) -> (r: String)
    ensures
        r@ == trim(text@),
{
    let chars = to_chars(text);
    let (a, b) = trim_bounds(&chars, 0);
    assert(chars@.skip(0) =~= text@);
    text.substring_char(a, b).to_owned()
}

/// The bounds of the pieces of `chars[from..to]` between occurrences of
/// `sep`, as positions in `chars`.
pub fn split_bounds(chars: &Vec<char>, from: usize, to: usize, sep: char) -> (bounds: Vec<
    (usize, usize),
>)
    requires
        from <= to <= chars.len(),
    ensures
        bounds.len() >= 1,
        bounds_within(bounds@, to as int),
        slices(chars@, bounds@) == split(chars@.subrange(from as int, to as int), sep),
{
    let ghost whole = chars@.subrange(from as int, to as int);
    let mut bounds: Vec<(usize, usize)> = Vec::new();
    let mut start: usize = from;
    let mut j: usize = from;
    assert(slices(chars@, bounds@) + split(chars@.subrange(start as int, to as int), sep) =~= split(
        whole,
        sep,
    ));
    while j < to
        invariant
            from <= start <= j <= to <= chars.len(),
            whole == chars@.subrange(from as int, to as int),
            bounds_within(bounds@, to as int),
            forall|k: int| start <= k < j ==> chars@[k] != sep,
            slices(chars@, bounds@) + split(chars@.subrange(start as int, to as int), sep)
                == split(whole, sep),
        decreases to - j,
    {
        if chars[j] == sep {
            let ghost rest = chars@.subrange(start as int, to as int);
            proof {
                lemma_first_index(rest, sep, j - start);
                assert(rest.take(j - start) =~= chars@.subrange(start as int, j as int));
                assert(rest.skip(j - start + 1) =~= chars@.subrange(j + 1, to as int));
            }
            let ghost before = bounds@;
            bounds.push((start, j));
            assert(slices(chars@, bounds@) =~= slices(chars@, before) + seq![
                chars@.subrange(start as int, j as int),
            ]);
            start = j + 1;
        }
        j += 1;
    }
    let ghost rest = chars@.subrange(start as int, to as int);
    proof {
        lemma_first_index(rest, sep, to - start);
    }
    let ghost before = bounds@;
    bounds.push((start, to));
    assert(slices(chars@, bounds@) =~= slices(chars@, before) + seq![rest]);
    bounds
}

/// The pieces `bounds[from..]` of `text`, joined by single spaces.
pub fn join_slices(text: &str, bounds: &Vec<(usize, usize)>, from: usize) -> (r: String)
    requires
        from <= bounds.len(),
        bounds_within(bounds@, text@.len() as int),
    ensures
        r@ == join(slices(text@, bounds@).skip(from as int), ' '),
{
    let ghost pieces = slices(text@, bounds@);
    let mut r = String::new();
    let mut i: usize = from;
    proof {
        reveal_strlit(" ");
    }
    assert(pieces.subrange(from as int, i as int) =~= Seq::<Seq<char>>::empty());
    while i < bounds.len()
        invariant
            from <= i <= bounds.len(),
            bounds_within(bounds@, text@.len() as int),
            pieces == slices(text@, bounds@),
            " "@ == seq![' '],
            r@ == join(pieces.subrange(from as int, i as int), ' '),
        decreases bounds.len() - i,
    {
        let (a, b) = bounds[i];
        let ghost so_far = pieces.subrange(from as int, i as int);
        let ghost longer = pieces.subrange(from as int, i + 1);
        assert(longer.drop_last() =~= so_far);
        assert(longer.last() == text@.subrange(a as int, b as int));
        if i > from {
            r.append(" ");
        }
        r.append(text.substring_char(a, b));
        assert(r@ =~= join(longer, ' '));
        i += 1;
    }
    assert(pieces.subrange(from as int, bounds.len() as int) =~= pieces.skip(from as int));
    r
}

} // verus!
