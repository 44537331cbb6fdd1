use vstd::prelude::*;
use vstd::utf8::encode_utf8;

verus! {

/// The smallest of three numbers.
pub open spec fn min3(a: nat, b: nat, c: nat) -> nat {
    if a <= b && a <= c {
        a
    } else if b <= c {
        b
    } else {
        c
    }
}

/// The least number of insertions, deletions and substitutions of single
/// characters that turn `a` into `b`.
pub open spec fn edit_distance(a: Seq<char>, b: Seq<char>) -> nat
    decreases a.len() + b.len(),
{
    if a.len() == 0 {
        b.len()
    } else if b.len() == 0 {
        a.len()
    } else if a.last() == b.last() {
        edit_distance(a.drop_last(), b.drop_last())
    } else {
        1 + min3(
            edit_distance(a.drop_last(), b),
            edit_distance(a, b.drop_last()),
            edit_distance(a.drop_last(), b.drop_last()),
        )
    }
}

/// Tests whether two strings hold the same characters.
pub fn same_text(a: &str, b: &str) -> (same: bool)
    ensures
        same == (a@ == b@),
{
    let left = a.to_owned();
    let right = b.to_owned();
    left == right
}

/// Calls `strsim::levenshtein`, which is documented to return the minimum
/// number of insertions, deletions and substitutions needed to change one
/// string into the other, counted in characters.
#[verifier::external_body]
fn levenshtein(a: &str, b: &str) -> (dist: usize)
    ensures
        dist == edit_distance(a@, b@),
{
    strsim::levenshtein(a, b)
}

/// The byte offset at which the character with index `i` starts in the
/// UTF-8 encoding of `chars`; for `i == chars.len()`, the encoding's length.
pub open spec fn byte_offset(chars: Seq<char>, i: int) -> nat {
    encode_utf8(chars.take(i)).len()
}

/// Calls `str::char_indices`, which yields each character of the string
/// in order, paired with the byte position at which it starts.
#[verifier::external_body]
fn char_indices(s: &str) -> (pairs: Vec<(usize, char)>)
    ensures
        pairs@.len() == s@.len(),
        forall|i: int|
            0 <= i < s@.len() ==> (#[trigger] pairs@[i]).1 == s@[i] && pairs@[i].0 == byte_offset(
                s@,
                i,
            ),
{
    s.char_indices().collect()
}

/// Calls `String::push`, which appends one character to the string.
#[verifier::external_body]
pub(crate) fn push_char(s: &mut String, c: char)
    ensures
        final(s)@ == old(s)@.push(c),
{
    s.push(c)
}

/// The characters of a source text with the byte offset of each.
pub struct SourceChars {
    /// The characters in order.
    pub chars: Vec<char>,
    /// One entry per character, and a last one for the end of the text.
    pub offsets: Vec<usize>,
}

impl SourceChars {
    /// Whether the offsets are those of the characters.
    pub open spec fn wf(&self) -> bool {
        &&& self.offsets@.len() == self.chars@.len() + 1
        &&& forall|i: int|
            0 <= i <= self.chars@.len() ==> #[trigger] self.offsets@[i] == byte_offset(
                self.chars@,
                i,
            )
    }

    /// Splits a text into its characters and records where each starts.
    pub fn new(text: &str) -> (sc: SourceChars)
        ensures
            sc.wf(),
            sc.chars@ == text@,
    {
        let pairs = char_indices(text);
        let mut chars: Vec<char> = Vec::new();
        let mut offsets: Vec<usize> = Vec::new();
        let mut i: usize = 0;
        while i < pairs.len()
            invariant
                i <= pairs@.len(),
                pairs@.len() == text@.len(),
                chars@.len() == i,
                offsets@.len() == i,
                forall|j: int|
                    0 <= j < text@.len() ==> (#[trigger] pairs@[j]).1 == text@[j] && pairs@[j].0
                        == byte_offset(text@, j),
                forall|j: int| 0 <= j < i ==> #[trigger] chars@[j] == text@[j],
                forall|j: int| 0 <= j < i ==> #[trigger] offsets@[j] == byte_offset(text@, j),
            decreases pairs@.len() - i,
        {
            chars.push(pairs[i].1);
            offsets.push(pairs[i].0);
            i += 1;
        }
        let total = text.as_bytes().len();
        offsets.push(total);
        proof {
            assert(text@.take(text@.len() as int) =~= text@);
            assert(chars@ =~= text@);
        }
        SourceChars { chars, offsets }
    }
}

} // verus!

verus! {

/// The line and column, both counted from 1, of the place just behind the
/// characters of `prefix`.
pub open spec fn position_after(prefix: Seq<char>) -> (nat, nat)
    decreases prefix.len(),
{
    if prefix.len() == 0 {
        (1, 1)
    } else {
        let before = position_after(prefix.drop_last());
        if prefix.last() == '\n' {
            ((before.0 + 1) as nat, 1)
        } else {
            (before.0, (before.1 + 1) as nat)
        }
    }
}

/// The index of the first character at or behind `from` that starts at byte
/// `index`, or the number of characters when there is none.
pub open spec fn first_char_at(text: Seq<char>, index: nat, from: int) -> int
    decreases text.len() - from,
{
    if from < 0 || from >= text.len() {
        text.len() as int
    } else if byte_offset(text, from) == index {
        from
    } else {
        first_char_at(text, index, from + 1)
    }
}

/// The line and column that the byte offset `index` has in `text`: those of
/// the character that starts there, or of the end of the text when no
/// character starts at `index`.
pub open spec fn position_in_text(text: Seq<char>, index: nat) -> (nat, nat) {
    position_after(text.take(first_char_at(text, index, 0)))
}

proof fn lemma_position_bound(prefix: Seq<char>)
    ensures
        1 <= position_after(prefix).0 <= prefix.len() + 1,
        1 <= position_after(prefix).1 <= prefix.len() + 1,
    decreases prefix.len(),
{
    if prefix.len() > 0 {
        lemma_position_bound(prefix.drop_last());
    }
}

/// Line and column of a byte offset, as `position_in_text` defines them,
/// for a text that was already split into characters.
pub fn position_in_chars(sc: &SourceChars, index: usize) -> (pos: (usize, usize))
    requires
        sc.wf(),
    ensures
        (pos.0 as nat, pos.1 as nat) == position_in_text(sc.chars@, index as nat),
{
    let ghost text = sc.chars@;
    let mut line: usize = 1;
    let mut col: usize = 1;
    let mut k: usize = 0;
    let n = sc.chars.len();
    let bound = sc.offsets.len();
    proof {
        assert(text.take(0) =~= Seq::<char>::empty());
    }
    while k < n && sc.offsets[k] != index
        invariant
            sc.wf(),
            text == sc.chars@,
            n == text.len(),
            n < bound,
            k <= n,
            first_char_at(text, index as nat, 0) == first_char_at(text, index as nat, k as int),
            (line as nat, col as nat) == position_after(text.take(k as int)),
        decreases n - k,
    {
        proof {
            lemma_position_bound(text.take(k as int));
            assert(text.take(k as int).len() == k);
            assert(text.take(k + 1).drop_last() =~= text.take(k as int));
            assert(text.take(k + 1).last() == text[k as int]);
        }
        if sc.chars[k] == '\n' {
            line += 1;
            col = 1;
        } else {
            col += 1;
        }
        k += 1;
    }
    (line, col)
}

/// Maps a byte offset of `source` to a line and a column, both counted from
/// 1 and in characters.
pub fn get_position_in_src(source: &str, index: usize) -> (pos: (usize, usize))
    ensures
        (pos.0 as nat, pos.1 as nat) == position_in_text(source@, index as nat),
{
    let sc = SourceChars::new(source);
    position_in_chars(&sc, index)
}

/// Two spaces for each level of nesting.
pub open spec fn indent_text(level: nat) -> Seq<char>
    decreases level,
{
    if level == 0 {
        Seq::empty()
    } else {
        indent_text((level - 1) as nat) + "  "@
    }
}

/// The white space that starts a line at the given nesting level.
pub fn indent(level: usize) -> (text: String)
    ensures
        text@ == indent_text(level as nat),
{
    let mut text = String::new();
    let mut i: usize = 0;
    while i < level
        invariant
            i <= level,
            text@ == indent_text(i as nat),
        decreases level - i,
    {
        text.append("  ");
        i += 1;
    }
    text
}

} // verus!

verus! {

/// The character that writes a digit.
pub open spec fn digit_text(d: nat) -> Seq<char> {
    if d == 0 {
        "0"@
    } else if d == 1 {
        "1"@
    } else if d == 2 {
        "2"@
    } else if d == 3 {
        "3"@
    } else if d == 4 {
        "4"@
    } else if d == 5 {
        "5"@
    } else if d == 6 {
        "6"@
    } else if d == 7 {
        "7"@
    } else if d == 8 {
        "8"@
    } else {
        "9"@
    }
}

/// A natural number in decimal, without leading zeros.
pub open spec fn nat_text(n: nat) -> Seq<char>
    decreases n,
{
    if n < 10 {
        digit_text(n)
    } else {
        nat_text(n / 10) + digit_text(n % 10)
    }
}

/// An integer in decimal, with a minus sign in front of a negative one.
pub open spec fn int_text(n: int) -> Seq<char> {
    if n < 0 {
        "-"@ + nat_text((-n) as nat)
    } else {
        nat_text(n as nat)
    }
}

fn digit_str(d: u64) -> (text: &'static str)
    requires
        d < 10,
    ensures
        text@ == digit_text(d as nat),
{
    if d == 0 {
        "0"
    } else if d == 1 {
        "1"
    } else if d == 2 {
        "2"
    } else if d == 3 {
        "3"
    } else if d == 4 {
        "4"
    } else if d == 5 {
        "5"
    } else if d == 6 {
        "6"
    } else if d == 7 {
        "7"
    } else if d == 8 {
        "8"
    } else {
        "9"
    }
}

/// Writes a number in decimal.
pub fn u64_to_text(n: u64) -> (text: String)
    ensures
        text@ == nat_text(n as nat),
    decreases n,
{
    if n < 10 {
        digit_str(n).to_owned()
    } else {
        let mut text = u64_to_text(n / 10);
        text.append(digit_str(n % 10));
        text
    }
}

/// Writes a count in decimal.
pub fn usize_to_text(n: usize) -> (text: String)
    ensures
        text@ == nat_text(n as nat),
{
    u64_to_text(n as u64)
}

/// Writes a signed number in decimal.
pub fn i64_to_text(n: i64) -> (text: String)
    ensures
        text@ == int_text(n as int),
{
    if n < 0 {
        let magnitude: u64 = ((-(n + 1)) as u64) + 1;
        let digits = u64_to_text(magnitude);
        let mut text = "-".to_owned();
        text.append(digits.as_str());
        text
    } else {
        u64_to_text(n as u64)
    }
}

} // verus!

verus! {

/// The parts in order, with the separator between each two neighbours.
pub open spec fn join_texts(parts: Seq<Seq<char>>, sep: Seq<char>) -> Seq<char>
    decreases parts.len(),
{
    if parts.len() == 0 {
        Seq::empty()
    } else if parts.len() == 1 {
        parts[0]
    } else {
        join_texts(parts.drop_last(), sep) + sep + parts.last()
    }
}

/// Joins strings with a separator.
pub fn join(parts: &Vec<String>, sep: &str) -> (text: String)
    ensures
        text@ == join_texts(Seq::new(parts@.len(), |i: int| parts@[i]@), sep@),
{
    let ghost views = Seq::new(parts@.len(), |i: int| parts@[i]@);
    let mut text = String::new();
    let mut i: usize = 0;
    while i < parts.len()
        invariant
            i <= parts@.len(),
            views == Seq::new(parts@.len(), |i: int| parts@[i]@),
            text@ == join_texts(views.take(i as int), sep@),
        decreases parts@.len() - i,
    {
        proof {
            assert(views.take(i + 1).drop_last() =~= views.take(i as int));
            assert(views.take(i + 1).last() == parts@[i as int]@);
        }
        if i > 0 {
            text.append(sep);
            text.append(parts[i].as_str());
        } else {
            text.append(parts[i].as_str());
            assert(text@ =~= parts@[0]@);
        }
        i += 1;
    }
    proof {
        assert(views.take(parts@.len() as int) =~= views);
    }
    text
}

} // verus!

verus! {

/// The index of the name that is closest to `name` by edit distance, the
/// first of them where several are equally close; -1 for an empty list.
pub open spec fn closest_index(names: Seq<Seq<char>>, name: Seq<char>) -> int
    decreases names.len(),
{
    if names.len() == 0 {
        -1
    } else {
        let before = closest_index(names.drop_last(), name);
        if before >= 0 && edit_distance(name, names[before]) <= edit_distance(name, names.last()) {
            before
        } else {
            names.len() - 1
        }
    }
}

/// The name to suggest in place of `name`: the closest of `names`, if its
/// edit distance is at most 2.
pub open spec fn suggestion(names: Seq<Seq<char>>, name: Seq<char>) -> Option<Seq<char>> {
    let i = closest_index(names, name);
    if i >= 0 && edit_distance(name, names[i]) <= 2 {
        Some(names[i])
    } else {
        None
    }
}

proof fn lemma_closest_in_range(names: Seq<Seq<char>>, name: Seq<char>)
    ensures
        -1 <= closest_index(names, name) < names.len(),
        names.len() > 0 ==> closest_index(names, name) >= 0,
    decreases names.len(),
{
    if names.len() > 0 {
        lemma_closest_in_range(names.drop_last(), name);
    }
}

/// Picks the name that is most like `name`, if one is like enough.
pub fn suggest_similar(symbols: Vec<String>, name: &str) -> (similar: Option<String>)
    ensures
        match similar {
            Some(s) => suggestion(Seq::new(symbols@.len(), |i: int| symbols@[i]@), name@) == Some(
                s@,
            ),
            None => suggestion(Seq::new(symbols@.len(), |i: int| symbols@[i]@), name@) is None,
        },
{
    let ghost names = Seq::new(symbols@.len(), |i: int| symbols@[i]@);
    if symbols.len() == 0 {
        return None;
    }
    let mut best: usize = 0;
    let mut best_dist: usize = levenshtein(name, symbols[0].as_str());
    let mut i: usize = 1;
    proof {
        assert(names.take(1).drop_last() =~= Seq::<Seq<char>>::empty());
        assert(closest_index(names.take(1).drop_last(), name@) == -1);
    }
    while i < symbols.len()
        invariant
            1 <= i <= symbols@.len(),
            names == Seq::new(symbols@.len(), |i: int| symbols@[i]@),
            best < i,
            best as int == closest_index(names.take(i as int), name@),
            best_dist == edit_distance(name@, names[best as int]),
        decreases symbols@.len() - i,
    {
        proof {
            assert(names.take(i + 1).drop_last() =~= names.take(i as int));
            assert(names.take(i as int)[best as int] == names[best as int]);
        }
        let dist = levenshtein(name, symbols[i].as_str());
        if dist < best_dist {
            best = i;
            best_dist = dist;
        }
        i += 1;
    }
    proof {
        assert(names.take(symbols@.len() as int) =~= names);
    }
    if best_dist <= 2 {
        Some(symbols[best].clone())
    } else {
        None
    }
}

} // verus!

verus! {

/// Lines and columns are counted from 1.
pub proof fn lemma_position_at_least_one(text: Seq<char>, index: nat)
    ensures
        position_in_text(text, index).0 >= 1,
        position_in_text(text, index).1 >= 1,
{
    lemma_position_bound(text.take(first_char_at(text, index, 0)));
}

} // verus!

verus! {

proof fn lemma_encoding_of_concat(a: Seq<char>, b: Seq<char>)
    ensures
        encode_utf8(a + b).len() == encode_utf8(a).len() + encode_utf8(b).len(),
    decreases a.len(),
{
    if a.len() == 0 {
        assert(a + b =~= b);
    } else {
        assert((a + b).drop_first() =~= a.drop_first() + b);
        lemma_encoding_of_concat(a.drop_first(), b);
    }
}

proof fn lemma_encoding_not_empty(a: Seq<char>)
    requires
        a.len() > 0,
    ensures
        encode_utf8(a).len() > 0,
{
}

/// Byte offsets grow with the index of the character: a character that
/// stands behind another starts behind it.
pub proof fn lemma_byte_offset_ordered(chars: Seq<char>, i: int, j: int)
    requires
        0 <= i <= j <= chars.len(),
    ensures
        byte_offset(chars, i) <= byte_offset(chars, j),
        i < j ==> byte_offset(chars, i) < byte_offset(chars, j),
        byte_offset(chars, j) <= encode_utf8(chars).len(),
{
    assert(chars.take(j) =~= chars.take(i) + chars.subrange(i, j));
    lemma_encoding_of_concat(chars.take(i), chars.subrange(i, j));
    if i < j {
        lemma_encoding_not_empty(chars.subrange(i, j));
    }
    assert(chars =~= chars.take(j) + chars.subrange(j, chars.len() as int));
    lemma_encoding_of_concat(chars.take(j), chars.subrange(j, chars.len() as int));
}

} // verus!
