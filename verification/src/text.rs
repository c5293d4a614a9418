//! Splitting and trimming of configuration text.
use vstd::prelude::*;

verus! {

/// The characters with the Unicode property White_Space.
pub open spec fn white_space(c: char) -> bool {
    let n = c as u32;
    ||| 0x9 <= n <= 0xd
    ||| n == 0x20
    ||| n == 0x85
    ||| n == 0xa0
    ||| n == 0x1680
    ||| 0x2000 <= n <= 0x200a
    ||| n == 0x2028
    ||| n == 0x2029
    ||| n == 0x202f
    ||| n == 0x205f
    ||| n == 0x3000
}

/// `s` without the white space in front.
pub open spec fn trim_start(s: Seq<char>) -> Seq<char>
    decreases s.len(),
{
    if s.len() > 0 && white_space(s[0]) {
        trim_start(s.subrange(1, s.len() as int))
    } else {
        s
    }
}

/// `s` without the white space at the end.
pub open spec fn trim_end(s: Seq<char>) -> Seq<char>
    decreases s.len(),
{
    if s.len() > 0 && white_space(s.last()) {
        trim_end(s.drop_last())
    } else {
        s
    }
}

/// `s` without the white space on both sides.
pub open spec fn trimmed(s: Seq<char>) -> Seq<char> {
    trim_end(trim_start(s))
}

/// The parts of `s` between the separators, in order; a text without a separator is one part.
pub open spec fn parts(s: Seq<char>, sep: char) -> Seq<Seq<char>>
    decreases s.len(),
{
    if s.len() == 0 {
        seq![Seq::empty()]
    } else {
        let before = parts(s.drop_last(), sep);
        if s.last() == sep {
            before.push(Seq::empty())
        } else {
            before.update(before.len() - 1, before.last().push(s.last()))
        }
    }
}

/// The parts put together again with the separator between them.
pub open spec fn joined(parts: Seq<Seq<char>>, sep: char) -> Seq<char>
    decreases parts.len(),
{
    if parts.len() == 0 {
        Seq::empty()
    } else if parts.len() == 1 {
        parts[0]
    } else {
        joined(parts.drop_last(), sep).push(sep) + parts.last()
    }
}

/// Splitting a text and joining its parts gives the text back; there is at least one part,
/// and no part holds the separator.
pub proof fn law_split_and_join(s: Seq<char>, sep: char)
    ensures
        parts(s, sep).len() >= 1,
        joined(parts(s, sep), sep) == s,
        forall|i: int| 0 <= i < parts(s, sep).len() ==> !(#[trigger] parts(s, sep)[i]).contains(sep),
    decreases s.len(),
{
    if s.len() > 0 {
        let front = s.drop_last();
        law_split_and_join(front, sep);
        let before = parts(front, sep);
        let after = parts(s, sep);
        if s.last() == sep {
            assert(after.drop_last() =~= before);
            assert(joined(after, sep) =~= joined(before, sep).push(sep) + Seq::<char>::empty());
            assert(joined(after, sep) =~= s);
            assert forall|i: int| 0 <= i < after.len() implies !(#[trigger] after[i]).contains(sep) by {
                if i < before.len() {
                    assert(after[i] == before[i]);
                }
            }
        } else {
            let c = s.last();
            if before.len() == 1 {
                assert(joined(after, sep) =~= s);
            } else {
                assert(after.drop_last() =~= before.drop_last());
                assert(joined(after, sep) =~= joined(before, sep).push(c));
                assert(joined(after, sep) =~= s);
            }
            assert forall|i: int| 0 <= i < after.len() implies !(#[trigger] after[i]).contains(sep) by {
                if i < before.len() - 1 {
                    assert(after[i] == before[i]);
                } else {
                    let piece = before.last();
                    assert(!before[before.len() - 1].contains(sep));
                    assert(after[i] == piece.push(c));
                    if after[i].contains(sep) {
                        let k = choose|k: int| 0 <= k < after[i].len() && after[i][k] == sep;
                        if k < piece.len() {
                            assert(piece[k] == sep);
                        }
                    }
                }
            }
        }
    } else {
        assert(joined(parts(s, sep), sep) =~= s);
    }
}

/// Text after a separator is one part more.
proof fn lemma_part_after_separator(s: Seq<char>, piece: Seq<char>, sep: char)
    requires
        !piece.contains(sep),
    ensures
        parts(s.push(sep) + piece, sep) == parts(s, sep).push(piece),
    decreases piece.len(),
{
    let whole = s.push(sep) + piece;
    if piece.len() == 0 {
        assert(whole =~= s.push(sep));
        assert(whole.drop_last() =~= s);
        assert(piece =~= Seq::<char>::empty());
    } else {
        let less = piece.drop_last();
        assert(!less.contains(sep)) by {
            if less.contains(sep) {
                let k = choose|k: int| 0 <= k < less.len() && less[k] == sep;
                assert(piece[k] == sep);
            }
        }
        lemma_part_after_separator(s, less, sep);
        assert(whole.drop_last() =~= s.push(sep) + less);
        assert(piece[piece.len() - 1] != sep);
        assert(parts(whole, sep) =~= parts(s, sep).push(less.push(piece.last())));
        assert(less.push(piece.last()) =~= piece);
    }
}

/// Text without a separator is one part.
proof fn lemma_single_part(piece: Seq<char>, sep: char)
    requires
        !piece.contains(sep),
    ensures
        parts(piece, sep) == seq![piece],
    decreases piece.len(),
{
    if piece.len() == 0 {
        assert(piece =~= Seq::<char>::empty());
    } else {
        let less = piece.drop_last();
        assert(!less.contains(sep)) by {
            if less.contains(sep) {
                let k = choose|k: int| 0 <= k < less.len() && less[k] == sep;
                assert(piece[k] == sep);
            }
        }
        lemma_single_part(less, sep);
        assert(piece[piece.len() - 1] != sep);
        assert(less.push(piece.last()) =~= piece);
        assert(parts(piece, sep) =~= seq![piece]);
    }
}

/// Joining parts that do not hold the separator and splitting the text gives the parts back.
pub proof fn law_join_and_split(items: Seq<Seq<char>>, sep: char)
    requires
        items.len() >= 1,
        forall|i: int| 0 <= i < items.len() ==> !(#[trigger] items[i]).contains(sep),
    ensures
        parts(joined(items, sep), sep) == items,
    decreases items.len(),
{
    if items.len() == 1 {
        lemma_single_part(items[0], sep);
        assert(items =~= seq![items[0]]);
    } else {
        let before = items.drop_last();
        assert forall|i: int| 0 <= i < before.len() implies !(#[trigger] before[i]).contains(sep) by {
            assert(before[i] == items[i]);
        }
        law_join_and_split(before, sep);
        assert(!items[items.len() - 1].contains(sep));
        lemma_part_after_separator(joined(before, sep), items.last(), sep);
        assert(before.push(items.last()) =~= items);
    }
}

/// An ASCII capital letter as the small one; any other character as it is.
pub open spec fn lower_char(c: char) -> char {
    if 'A' <= c && c <= 'Z' {
        ((c as u8) + 32) as u8 as char
    } else {
        c
    }
}

/// `s` with the ASCII capital letters made small.
pub open spec fn lowered(s: Seq<char>) -> Seq<char> {
    s.map_values(|c: char| lower_char(c))
}

pub fn is_white_space(c: char) -> (r: bool)
    ensures
        r == white_space(c),
{
    let n: u32 = c as u32;
    (0x9 <= n && n <= 0xd) || n == 0x20 || n == 0x85 || n == 0xa0 || n == 0x1680 || (0x2000 <= n
        && n <= 0x200a) || n == 0x2028 || n == 0x2029 || n == 0x202f || n == 0x205f || n == 0x3000
}

/// The characters of a text.
pub fn chars_of(s: &str) -> (r: Vec<char>)
    ensures
        r@ == s@,
{
    let mut out: Vec<char> = Vec::new();
    let len: usize = s.unicode_len();
    let mut i: usize = 0;
    while i < len
        invariant
            i <= len,
            len == s@.len(),
            out@ == s@.take(i as int),
        decreases len - i,
    {
        out.push(s.get_char(i));
        i += 1;
        proof {
            assert(s@.take(i as int) =~= s@.take(i as int - 1).push(s@[i as int - 1]));
        }
    }
    proof {
        assert(s@.take(len as int) =~= s@);
    }
    out
}

/// The text without the white space on both sides.
pub fn trim<'a>(s: &'a str) -> (r: &'a str)
    ensures
        r@ == trimmed(s@),
{
    let chars = chars_of(s);
    let len: usize = chars.len();
    let mut from: usize = 0;
    proof {
        assert(s@.subrange(0, len as int) =~= s@);
    }
    while from < len && is_white_space(chars[from])
        invariant
            from <= len,
            len == chars@.len(),
            chars@ == s@,
            trim_start(s@) == trim_start(s@.subrange(from as int, len as int)),
        decreases len - from,
    {
        proof {
            let rest = s@.subrange(from as int, len as int);
            assert(rest[0] == s@[from as int]);
            assert(rest.subrange(1, rest.len() as int) =~= s@.subrange(from as int + 1, len as int));
        }
        from += 1;
    }
    let ghost start = s@.subrange(from as int, len as int);
    proof {
        if from < len {
            assert(start[0] == s@[from as int]);
        }
        assert(trim_start(s@) == start);
    }
    let mut to: usize = len;
    while to > from && is_white_space(chars[to - 1])
        invariant
            from <= to <= len,
            len == chars@.len(),
            chars@ == s@,
            start == s@.subrange(from as int, len as int),
            trim_end(start) == trim_end(s@.subrange(from as int, to as int)),
        decreases to - from,
    {
        proof {
            let rest = s@.subrange(from as int, to as int);
            assert(rest.last() == s@[to as int - 1]);
            assert(rest.drop_last() =~= s@.subrange(from as int, to as int - 1));
        }
        to -= 1;
    }
    proof {
        let rest = s@.subrange(from as int, to as int);
        if to > from {
            assert(rest.last() == s@[to as int - 1]);
        }
    }
    s.substring_char(from, to)
}

/// The parts of the text between the separators.
pub fn split<'a>(s: &'a str, sep: char) -> (r: Vec<&'a str>)
    ensures
        r@.len() == parts(s@, sep).len(),
        forall|i: int| 0 <= i < r@.len() ==> (#[trigger] r@[i])@ == parts(s@, sep)[i],
{
    let chars = chars_of(s);
    let len: usize = chars.len();
    let mut out: Vec<&'a str> = Vec::new();
    let mut from: usize = 0;
    let mut i: usize = 0;
    proof {
        assert(s@.take(0) =~= Seq::<char>::empty());
        assert(s@.subrange(0, 0) =~= Seq::<char>::empty());
    }
    while i < len
        invariant
            from <= i <= len,
            len == chars@.len(),
            chars@ == s@,
            parts(s@.take(i as int), sep).len() == out@.len() + 1,
            forall|k: int|
                0 <= k < out@.len() ==> (#[trigger] out@[k])@ == parts(s@.take(i as int), sep)[k],
            parts(s@.take(i as int), sep).last() == s@.subrange(from as int, i as int),
        decreases len - i,
    {
        proof {
            assert(s@.take(i as int + 1).drop_last() =~= s@.take(i as int));
            assert(s@.take(i as int + 1).last() == s@[i as int]);
        }
        if chars[i] == sep {
            out.push(s.substring_char(from, i));
            from = i + 1;
            proof {
                assert(s@.subrange(i as int + 1, i as int + 1) =~= Seq::<char>::empty());
            }
        } else {
            proof {
                assert(s@.subrange(from as int, i as int + 1) =~= s@.subrange(
                    from as int,
                    i as int,
                ).push(s@[i as int]));
            }
        }
        i += 1;
    }
    proof {
        assert(s@.take(len as int) =~= s@);
    }
    out.push(s.substring_char(from, len));
    out
}

/// Tells whether the text, with its capital letters made small, is `word`.
pub fn lowers_to(s: &str, word: &str) -> (r: bool)
    ensures
        r == (lowered(s@) == word@),
{
    let len: usize = s.unicode_len();
    if len != word.unicode_len() {
        return false;
    }
    let mut i: usize = 0;
    while i < len
        invariant
            i <= len,
            len == s@.len(),
            len == word@.len(),
            forall|k: int| 0 <= k < i ==> lowered(s@)[k] == #[trigger] word@[k],
        decreases len - i,
    {
        let c: char = s.get_char(i);
        let small: char = if 'A' <= c && c <= 'Z' {
            (c as u8 + 32) as char
        } else {
            c
        };
        if small != word.get_char(i) {
            assert(lowered(s@)[i as int] != word@[i as int]);
            return false;
        }
        i += 1;
    }
    assert(lowered(s@) =~= word@);
    true
}

const SMALL_LETTERS: &'static str = "abcdefghijklmnopqrstuvwxyz";

/// The text with its capital letters made small.
pub fn lowercase(s: &str) -> (r: String)
    ensures
        r@ == lowered(s@),
{
    let len: usize = s.unicode_len();
    let letters: &str = SMALL_LETTERS;
    proof {
        reveal_strlit("abcdefghijklmnopqrstuvwxyz");
    }
    let mut out = String::new();
    let mut i: usize = 0;
    assert(out@ =~= lowered(s@.take(0)));
    while i < len
        invariant
            i <= len,
            len == s@.len(),
            letters@.len() == 26,
            forall|k: int| 0 <= k < 26 ==> #[trigger] letters@[k] as int == k + 97,
            out@ == lowered(s@.take(i as int)),
        decreases len - i,
    {
        let c: char = s.get_char(i);
        let ghost before = out@;
        if 'A' <= c && c <= 'Z' {
            let k: usize = (c as u8 - 65) as usize;
            let letter = letters.substring_char(k, k + 1);
            assert(letter@ =~= seq![letters@[k as int]]);
            out.append(letter);
        } else {
            let letter = s.substring_char(i, i + 1);
            assert(letter@ =~= seq![c]);
            out.append(letter);
        }
        i += 1;
        assert(lowered(s@.take(i as int)) =~= before.push(lowered(s@)[i as int - 1]));
        assert(out@ =~= lowered(s@.take(i as int)));
    }
    assert(s@.take(len as int) =~= s@);
    out
}

/// The character of a digit.
pub open spec fn digit_char(digit: int) -> char {
    (digit + '0' as int) as char
}

/// A number in decimal digits.
pub open spec fn number_text(n: int) -> Seq<char>
    decreases n,
{
    if n < 10 {
        seq![digit_char(n)]
    } else {
        number_text(n / 10).push(digit_char(n % 10))
    }
}

const DIGITS: &'static str = "0123456789";

/// Writes a number in decimal digits.
pub fn number_to_text(n: u32) -> (r: String)
    ensures
        r@ == number_text(n as int),
    decreases n,
{
    let digits: &str = DIGITS;
    proof {
        reveal_strlit("0123456789");
    }
    let last: usize = (n % 10) as usize;
    let digit = digits.substring_char(last, last + 1);
    assert(digit@ =~= seq![digits@[last as int]]);
    assert(digits@[last as int] == digit_char(last as int));
    if n < 10 {
        digit.to_owned()
    } else {
        let mut out = number_to_text(n / 10);
        let ghost before = out@;
        out.append(digit);
        assert(out@ =~= before.push(digit_char(n as int % 10)));
        out
    }
}

/// Tells whether two texts are the same.
pub fn same_text(a: &str, b: &str) -> (r: bool)
    ensures
        r == (a@ == b@),
{
    let len: usize = a.unicode_len();
    if len != b.unicode_len() {
        return false;
    }
    let mut i: usize = 0;
    while i < len
        invariant
            i <= len,
            len == a@.len(),
            len == b@.len(),
            forall|k: int| 0 <= k < i ==> a@[k] == #[trigger] b@[k],
        decreases len - i,
    {
        if a.get_char(i) != b.get_char(i) {
            return false;
        }
        i += 1;
    }
    assert(a@ =~= b@);
    true
}

/// `word` stands in `s` at place `i`.
pub open spec fn stands_at(s: Seq<char>, word: Seq<char>, i: int) -> bool {
    0 <= i && i + word.len() <= s.len() && s.subrange(i, i + word.len()) == word
}

/// `word` stands somewhere in `s`.
pub open spec fn has_word(s: Seq<char>, word: Seq<char>) -> bool {
    exists|i: int| #[trigger] stands_at(s, word, i)
}

fn word_at(s: &Vec<char>, word: &Vec<char>, i: usize) -> (r: bool)
    requires
        i + word@.len() <= s@.len(),
    ensures
        r == stands_at(s@, word@, i as int),
{
    let len: usize = s.len();
    let mut k: usize = 0;
    while k < word.len()
        invariant
            k <= word@.len(),
            len == s@.len(),
            i + word@.len() <= len,
            forall|j: int| 0 <= j < k ==> s@[i + j] == #[trigger] word@[j],
        decreases word@.len() - k,
    {
        if s[i + k] != word[k] {
            assert(s@.subrange(i as int, i + word@.len())[k as int] != word@[k as int]);
            return false;
        }
        k += 1;
    }
    assert(s@.subrange(i as int, i + word@.len()) =~= word@);
    true
}

/// Tells whether `word` stands somewhere in the text.
pub fn contains_text(s: &str, word: &str) -> (r: bool)
    ensures
        r == has_word(s@, word@),
{
    let chars = chars_of(s);
    let sought = chars_of(word);
    contains_chars(&chars, &sought)
}

/// Tells whether the characters `word` stand somewhere in `s`.
pub fn contains_chars(s: &Vec<char>, word: &Vec<char>) -> (r: bool)
    ensures
        r == has_word(s@, word@),
{
    if word.len() > s.len() {
        return false;
    }
    let last: usize = s.len() - word.len();
    let mut i: usize = 0;
    while i <= last
        invariant
            i <= last + 1,
            last == s@.len() - word@.len(),
            forall|j: int| 0 <= j < i ==> !#[trigger] stands_at(s@, word@, j),
        decreases last + 1 - i,
    {
        if word_at(s, word, i) {
            return true;
        }
        if i == last {
            assert forall|j: int| !#[trigger] stands_at(s@, word@, j) by {
                if 0 <= j < i {
                }
            }
            return false;
        }
        i += 1;
    }
    false
}

/// The characters of a text with the ASCII capital letters made small.
pub fn lowered_chars(s: &str) -> (r: Vec<char>)
    ensures
        r@ == lowered(s@),
{
    let len: usize = s.unicode_len();
    let mut out: Vec<char> = Vec::new();
    let mut i: usize = 0;
    while i < len
        invariant
            i <= len,
            len == s@.len(),
            out@.len() == i,
            forall|k: int| 0 <= k < i ==> #[trigger] out@[k] == lowered(s@)[k],
        decreases len - i,
    {
        let c: char = s.get_char(i);
        let small: char = if 'A' <= c && c <= 'Z' {
            (c as u8 + 32) as char
        } else {
            c
        };
        out.push(small);
        i += 1;
    }
    assert(out@ =~= lowered(s@));
    out
}

/// Tells whether the characters begin with `word`.
pub fn begins_with(s: &Vec<char>, word: &str) -> (r: bool)
    ensures
        r == stands_at(s@, word@, 0),
{
    let sought = chars_of(word);
    if sought.len() > s.len() {
        return false;
    }
    word_at(s, &sought, 0)
}

/// The set of the texts of a list.
pub open spec fn texts_of(items: Seq<String>) -> Set<Seq<char>> {
    Set::new(|t: Seq<char>| exists|i: int| 0 <= i < items.len() && (#[trigger] items[i])@ == t)
}

/// One more text of a list is one more text of the set.
pub proof fn lemma_texts_step(items: Seq<String>, i: int)
    requires
        0 <= i < items.len(),
    ensures
        texts_of(items.take(i + 1)) == texts_of(items.take(i)).insert(items[i]@),
{
    let now = items.take(i);
    let then = items.take(i + 1);
    assert forall|t: Seq<char>| texts_of(then).contains(t) <==> #[trigger] texts_of(now).insert(
        items[i]@,
    ).contains(t) by {
        if texts_of(now).contains(t) {
            let k = choose|k: int| 0 <= k < now.len() && (#[trigger] now[k])@ == t;
            assert(then[k]@ == t);
        }
        if t == items[i]@ {
            assert(then[i]@ == t);
        }
        if texts_of(then).contains(t) {
            let k = choose|k: int| 0 <= k < then.len() && (#[trigger] then[k])@ == t;
            if k < i {
                assert(now[k]@ == t);
            }
        }
    }
    assert(texts_of(then) =~= texts_of(now).insert(items[i]@));
}

proof fn lemma_trim_start(s: Seq<char>)
    ensures
        trim_start(s).len() <= s.len(),
        s.skip(s.len() - trim_start(s).len()) == trim_start(s),
        forall|i: int| 0 <= i < s.len() - trim_start(s).len() ==> white_space(#[trigger] s[i]),
        trim_start(s).len() > 0 ==> !white_space(trim_start(s)[0]),
    decreases s.len(),
{
    if s.len() > 0 && white_space(s[0]) {
        let rest = s.subrange(1, s.len() as int);
        lemma_trim_start(rest);
        let cut = rest.len() - trim_start(rest).len();
        assert(s.skip(cut + 1) =~= rest.skip(cut));
        assert forall|i: int| 0 <= i < cut + 1 implies white_space(#[trigger] s[i]) by {
            if i > 0 {
                assert(rest[i - 1] == s[i]);
            }
        }
    } else {
        assert(s.skip(0) =~= s);
    }
}

proof fn lemma_trim_end(s: Seq<char>)
    ensures
        trim_end(s).len() <= s.len(),
        s.take(trim_end(s).len() as int) == trim_end(s),
        forall|i: int| trim_end(s).len() <= i < s.len() ==> white_space(#[trigger] s[i]),
        trim_end(s).len() > 0 ==> !white_space(trim_end(s).last()),
    decreases s.len(),
{
    if s.len() > 0 && white_space(s.last()) {
        let rest = s.drop_last();
        lemma_trim_end(rest);
        let kept = trim_end(rest).len() as int;
        assert(s.take(kept) =~= rest.take(kept));
        assert forall|i: int| kept <= i < s.len() implies white_space(#[trigger] s[i]) by {
            if i < rest.len() {
                assert(rest[i] == s[i]);
            }
        }
    } else {
        assert(s.take(s.len() as int) =~= s);
    }
}

/// Trimming takes away white space alone, from both ends, and all of it: the text is what is left
/// between two runs of white space, and what is left neither begins nor ends with any.
pub proof fn law_trimming_takes_white_space_away(s: Seq<char>) -> (front: int)
    ensures
        0 <= front,
        front + trimmed(s).len() <= s.len(),
        s.subrange(front, front + trimmed(s).len()) == trimmed(s),
        forall|i: int| 0 <= i < front ==> white_space(#[trigger] s[i]),
        forall|i: int| front + trimmed(s).len() <= i < s.len() ==> white_space(#[trigger] s[i]),
        trimmed(s).len() > 0 ==> !white_space(trimmed(s)[0]) && !white_space(trimmed(s).last()),
        trimmed(s).len() == 0 <==> forall|i: int| 0 <= i < s.len() ==> white_space(#[trigger] s[i]),
{
    let begun = trim_start(s);
    lemma_trim_start(s);
    lemma_trim_end(begun);
    let front = s.len() - begun.len();
    let kept = trimmed(s);
    assert(s.subrange(front, front + kept.len()) =~= kept) by {
        assert(s.skip(front) == begun);
        assert(begun.take(kept.len() as int) == kept);
        assert forall|i: int| 0 <= i < kept.len() implies s[front + i] == kept[i] by {
            assert(s.skip(front)[i] == s[front + i]);
            assert(begun.take(kept.len() as int)[i] == begun[i]);
        }
    }
    assert forall|i: int| front + kept.len() <= i < s.len() implies white_space(#[trigger] s[i]) by {
        assert(s.skip(front)[i - front] == s[i]);
        assert(white_space(begun[i - front]));
    }
    if kept.len() > 0 {
        assert(begun.take(kept.len() as int)[0] == begun[0]);
        assert(s[front] == kept[0]);
    }
    front
}

/// A text in lower case is as long as the text and differs from it only where that has an ASCII capital
/// letter: there it has the small one, which comes 32 places later.
pub proof fn law_lower_case(s: Seq<char>, i: int)
    requires
        0 <= i < s.len(),
    ensures
        lowered(s).len() == s.len(),
        'A' <= s[i] <= 'Z' ==> lowered(s)[i] as int == s[i] as int + 32,
        !('A' <= s[i] <= 'Z') ==> lowered(s)[i] == s[i],
        !('A' <= lowered(s)[i] <= 'Z'),
{
}

/// The number that decimal digits stand for.
pub open spec fn number_of_digits(s: Seq<char>) -> int
    decreases s.len(),
{
    if s.len() == 0 {
        0
    } else {
        number_of_digits(s.drop_last()) * 10 + (s.last() as int - '0' as int)
    }
}

/// The digits of a number stand for that number: they are digits, and begin with a zero only if the
/// number is zero.
pub proof fn law_digits_stand_for_the_number(n: int)
    requires
        0 <= n,
    ensures
        number_of_digits(number_text(n)) == n,
        number_text(n).len() > 0,
        forall|i: int| 0 <= i < number_text(n).len() ==> '0' <= #[trigger] number_text(n)[i] <= '9',
        n > 0 ==> number_text(n)[0] != '0',
    decreases n,
{
    let text = number_text(n);
    if n < 10 {
        assert(text.drop_last().len() == 0);
        assert(number_of_digits(text.drop_last()) == 0);
    } else {
        law_digits_stand_for_the_number(n / 10);
        assert(text.drop_last() =~= number_text(n / 10));
        assert(text[0] == number_text(n / 10)[0]);
        assert forall|i: int| 0 <= i < text.len() implies '0' <= #[trigger] text[i] <= '9' by {
            if i < text.len() - 1 {
                assert(text[i] == number_text(n / 10)[i]);
            }
        }
    }
}

/// A word stands in every text that it was put into, and a text that holds a word is what stands before
/// it, the word, and what stands behind it.
pub proof fn law_words_in_texts(front: Seq<char>, word: Seq<char>, back: Seq<char>, s: Seq<char>)
    ensures
        has_word(front + word + back, word),
        has_word(s, word) ==> exists|i: int|
            0 <= i && i + word.len() <= s.len() && s == #[trigger] s.take(i) + word + s.skip(
                i + word.len(),
            ),
{
    let text = front + word + back;
    assert(text.subrange(front.len() as int, front.len() as int + word.len()) =~= word);
    assert(stands_at(text, word, front.len() as int));
    if has_word(s, word) {
        let i = choose|i: int| #[trigger] stands_at(s, word, i);
        assert(s =~= s.take(i) + word + s.skip(i + word.len())) by {
            assert forall|k: int| 0 <= k < word.len() implies s[i + k] == word[k] by {
                assert(s.subrange(i, i + word.len())[k] == s[i + k]);
            }
        }
    }
}

/// White space is what separates words: blanks, tabs and line ends are, letters and digits are not.
pub proof fn law_what_is_white_space(c: char)
    ensures
        c == ' ' || c == '\t' || c == '\n' || c == '\r' ==> white_space(c),
        '!' <= c <= '~' ==> !white_space(c),
{
}

} // verus!
