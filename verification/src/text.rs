//! Character sequences: decimal numerals, searching, splitting and joining.
use vstd::prelude::*;
use vstd::string::*;

verus! {

/// `String::push` appends one character to the end of the string.
pub assume_specification[ String::push ](s: &mut String, c: char)
    ensures
        final(s)@ == old(s)@.push(c),
;

/// The character of a single decimal digit.
pub open spec fn digit_char(d: int) -> char {
    (48 + d) as char
}

/// The decimal numeral of a natural number, without leading zeros.
pub open spec fn digits(n: nat) -> Seq<char>
    decreases n,
{
    if n < 10 {
        seq![digit_char(n as int)]
    } else {
        digits(n / 10).push(digit_char((n % 10) as int))
    }
}

/// The decimal numeral of an integer; a negative one starts with `-`.
pub open spec fn decimal(n: int) -> Seq<char> {
    if n < 0 {
        seq!['-'] + digits((-n) as nat)
    } else {
        digits(n as nat)
    }
}

/// Writes the digits of `n` behind `out`.
fn push_digits(out: &mut String, n: u64)
    ensures
        final(out)@ == old(out)@ + digits(n as nat),
    decreases n,
{
    if n >= 10 {
        push_digits(out, n / 10);
    }
    let d: u8 = (n % 10) as u8;
    out.push((48u8 + d) as char);
    assert(out@ =~= old(out)@ + digits(n as nat));
}

/// The decimal numeral of `n`.
pub fn natural_text(n: u64) -> (out: String)
    ensures
        out@ == decimal(n as int),
{
    let mut out = String::new();
    push_digits(&mut out, n);
    assert(out@ =~= digits(n as nat));
    out
}

/// The decimal numeral of `n`, signed.
pub fn integer_text(n: i64) -> (out: String)
    ensures
        out@ == decimal(n as int),
{
    let mut out = String::new();
    if n < 0 {
        out.push('-');
        let magnitude: u64 = (-(n as i128)) as u64;
        push_digits(&mut out, magnitude);
    } else {
        push_digits(&mut out, n as u64);
    }
    assert(out@ =~= decimal(n as int));
    out
}

/// The number of a character.
pub fn code_point(c: char) -> (code: u32)
    ensures
        code as int == c as int,
{
    c as u32
}

/// The characters of a string, one by one.
pub fn char_list(s: &str) -> (out: Vec<char>)
    ensures
        out@ == s@,
{
    let mut out: Vec<char> = Vec::new();
    for c in it: s.chars()
        invariant
            it.seq() == s@,
            out@ == s@.take(it.index() as int),
    {
        out.push(c);
        assert(out@ =~= s@.take(it.index() + 1));
    }
    assert(out@ =~= s@);
    out
}

/// The string made of the characters from `from` up to `to`.
pub fn string_of(chars: &Vec<char>, from: usize, to: usize) -> (out: String)
    requires
        from <= to <= chars@.len(),
    ensures
        out@ == chars@.subrange(from as int, to as int),
{
    let mut out = String::new();
    let mut i: usize = from;
    while i < to
        invariant
            from <= i <= to <= chars@.len(),
            out@ == chars@.subrange(from as int, i as int),
        decreases to - i,
    {
        out.push(chars[i]);
        i += 1;
        assert(out@ =~= chars@.subrange(from as int, i as int));
    }
    out
}

/// Whether two strings hold the same characters.
pub fn same_text(a: &str, b: &str) -> (same: bool)
    ensures
        same == (a@ == b@),
{
    a.to_owned() == b.to_owned()
}

/// The digits of `n`, with zeros in front up to the given width.
pub open spec fn padded(n: nat, width: nat) -> Seq<char> {
    let d = digits(n);
    if d.len() < width {
        Seq::new((width - d.len()) as nat, |i: int| '0') + d
    } else {
        d
    }
}

/// Writes `n` in decimal, with zeros in front up to the given width.
pub fn padded_text(n: u64, width: usize) -> (out: String)
    ensures
        out@ == padded(n as nat, width as nat),
{
    let number = natural_text(n);
    let count: usize = char_list(number.as_str()).len();
    let mut out = String::new();
    let mut i: usize = count;
    assert(out@ =~= Seq::new(0, |k: int| '0'));
    while i < width
        invariant
            count <= i,
            i <= width || i == count,
            out@ == Seq::new((i - count) as nat, |k: int| '0'),
        decreases width - i,
    {
        out.push('0');
        i += 1;
        assert(out@ =~= Seq::new((i - count) as nat, |k: int| '0'));
    }
    out.append(number.as_str());
    assert(out@ =~= padded(n as nat, width as nat));
    out
}

/// Copies a list of texts.
pub fn copy_texts(texts: &Vec<String>) -> (copy: Vec<String>)
    ensures
        copy@ == texts@,
{
    let mut copy: Vec<String> = Vec::new();
    let mut i: usize = 0;
    while i < texts.len()
        invariant
            i <= texts@.len(),
            copy@ == texts@.take(i as int),
        decreases texts@.len() - i,
    {
        copy.push(texts[i].clone());
        assert(copy@ =~= texts@.take(i + 1));
        i += 1;
    }
    assert(texts@.take(i as int) =~= texts@);
    copy
}

/// The characters of `parts`, each part behind one `sep`.
pub open spec fn led(parts: Seq<Seq<char>>, sep: Seq<char>) -> Seq<char>
    decreases parts.len(),
{
    if parts.len() == 0 {
        Seq::empty()
    } else {
        led(parts.drop_last(), sep) + sep + parts.last()
    }
}

/// The parts in order, with `sep` between neighbours.
pub open spec fn joined(parts: Seq<Seq<char>>, sep: Seq<char>) -> Seq<char> {
    if parts.len() == 0 {
        Seq::empty()
    } else {
        parts[0] + led(parts.skip(1), sep)
    }
}

/// Joins the parts with `sep` between neighbours.
pub fn join(parts: &Vec<String>, sep: &str) -> (out: String)
    ensures
        out@ == joined(parts.deep_view(), sep@),
{
    let ghost all = parts.deep_view();
    let mut out = String::new();
    if parts.len() == 0 {
        return out;
    }
    out.append(parts[0].as_str());
    let mut i: usize = 1;
    proof {
        assert(all.skip(1).take(0) =~= Seq::<Seq<char>>::empty());
        assert(out@ =~= all[0] + led(all.skip(1).take(0), sep@));
    }
    while i < parts.len()
        invariant
            1 <= i <= parts@.len(),
            all == parts.deep_view(),
            out@ == all[0] + led(all.skip(1).take(i - 1), sep@),
        decreases parts@.len() - i,
    {
        out.append(sep);
        out.append(parts[i].as_str());
        proof {
            let next = all.skip(1).take(i as int);
            assert(next.drop_last() =~= all.skip(1).take(i - 1));
            assert(next.last() == parts@[i as int]@);
            assert(out@ =~= all[0] + led(next, sep@));
        }
        i += 1;
    }
    assert(all.skip(1).take(i - 1) =~= all.skip(1));
    out
}

/// The pieces of `text` between the occurrences of `c`; always at least one.
pub open spec fn pieces(text: Seq<char>, c: char) -> Seq<Seq<char>>
    decreases text.len(),
{
    if text.len() == 0 {
        seq![Seq::<char>::empty()]
    } else {
        let before = pieces(text.drop_last(), c);
        if text.last() == c {
            before.push(Seq::empty())
        } else {
            before.drop_last().push(before.last().push(text.last()))
        }
    }
}

/// The pieces of `text` between the occurrences of `c`, the empty ones left out.
pub open spec fn filled_pieces(text: Seq<char>, c: char) -> Seq<Seq<char>> {
    pieces(text, c).filter(|p: Seq<char>| p.len() > 0)
}

pub proof fn lemma_pieces_not_empty(text: Seq<char>, c: char)
    ensures
        pieces(text, c).len() > 0,
    decreases text.len(),
{
    if text.len() > 0 {
        lemma_pieces_not_empty(text.drop_last(), c);
    }
}

/// Joining one part more.
proof fn lemma_joined_push(parts: Seq<Seq<char>>, sep: Seq<char>)
    requires
        parts.len() > 1,
    ensures
        joined(parts, sep) == joined(parts.drop_last(), sep) + sep + parts.last(),
{
    assert(parts.drop_last().skip(1) =~= parts.skip(1).drop_last());
    assert(parts.skip(1).last() == parts.last());
    assert(joined(parts, sep) =~= joined(parts.drop_last(), sep) + sep + parts.last());
}

/// A text without `c` makes the last piece longer.
proof fn lemma_pieces_extended(text: Seq<char>, more: Seq<char>, c: char)
    requires
        !more.contains(c),
    ensures
        pieces(text + more, c) == pieces(text, c).drop_last().push(pieces(text, c).last() + more),
    decreases more.len(),
{
    lemma_pieces_not_empty(text, c);
    let before = pieces(text, c);
    if more.len() == 0 {
        assert(text + more =~= text);
        assert(before.last() + more =~= before.last());
        assert(before.drop_last().push(before.last()) =~= before);
    } else {
        let rest = more.drop_last();
        assert forall|i: int| 0 <= i < rest.len() implies rest[i] != c by {
            assert(more[i] == rest[i]);
        }
        lemma_pieces_extended(text, rest, c);
        assert((text + more).drop_last() =~= text + rest);
        assert((text + more).last() == more.last());
        assert(more.last() != c) by {
            assert(more[more.len() - 1] == more.last());
        }
        let middle = before.drop_last().push(before.last() + rest);
        assert(middle.drop_last() =~= before.drop_last());
        assert((before.last() + rest).push(more.last()) =~= before.last() + more);
    }
}

/// Splitting what was joined gives the parts back.
pub proof fn split_undoes_join(parts: Seq<Seq<char>>, c: char)
    requires
        parts.len() > 0,
        forall|i: int| 0 <= i < parts.len() ==> !(#[trigger] parts[i]).contains(c),
    ensures
        pieces(joined(parts, seq![c]), c) == parts,
    decreases parts.len(),
{
    let last = parts.last();
    assert(last == parts[parts.len() - 1]);
    if parts.len() == 1 {
        let none = Seq::<char>::empty();
        lemma_pieces_extended(none, last, c);
        assert(joined(parts, seq![c]) =~= none + last);
        assert(pieces(none, c) =~= seq![none]);
        assert(none + last =~= last);
        assert(pieces(none, c).drop_last().push(last) =~= parts);
    } else {
        let rest = parts.drop_last();
        assert forall|i: int| 0 <= i < rest.len() implies !(#[trigger] rest[i]).contains(c) by {
            assert(rest[i] == parts[i]);
        }
        split_undoes_join(rest, c);
        lemma_joined_push(parts, seq![c]);
        let head = joined(rest, seq![c]);
        assert(head + seq![c] =~= head.push(c));
        assert(head.push(c).drop_last() =~= head);
        lemma_pieces_extended(head.push(c), last, c);
        let empty = Seq::<char>::empty();
        assert(pieces(head.push(c), c) == rest.push(empty));
        assert(rest.push(empty).drop_last() =~= rest);
        assert(empty + last =~= last);
        assert(rest.push(last) =~= parts);
    }
}

/// Joining what was split gives the text back.
pub proof fn join_undoes_split(text: Seq<char>, c: char)
    ensures
        joined(pieces(text, c), seq![c]) == text,
    decreases text.len(),
{
    let sep = seq![c];
    if text.len() == 0 {
        assert(pieces(text, c).skip(1) =~= Seq::<Seq<char>>::empty());
        assert(joined(pieces(text, c), sep) =~= text);
    } else {
        let before = pieces(text.drop_last(), c);
        let after = pieces(text, c);
        join_undoes_split(text.drop_last(), c);
        lemma_pieces_not_empty(text.drop_last(), c);
        if text.last() == c {
            lemma_joined_push(after, sep);
            assert(after.drop_last() =~= before);
            assert(joined(after, sep) =~= text);
        } else if before.len() == 1 {
            assert(before.skip(1) =~= Seq::<Seq<char>>::empty());
            assert(after.skip(1) =~= Seq::<Seq<char>>::empty());
            assert(joined(after, sep) =~= text);
        } else {
            lemma_joined_push(before, sep);
            lemma_joined_push(after, sep);
            assert(after.drop_last() =~= before.drop_last());
            assert(after.last() =~= before.last().push(text.last()));
            assert(joined(after, sep) =~= joined(before, sep).push(text.last()));
            assert(text.drop_last().push(text.last()) =~= text);
        }
    }
}

/// Parts that are filled and do not hold `c` come back from joining and
/// splitting them, even where empty pieces are dropped.
pub proof fn filled_split_undoes_join(parts: Seq<Seq<char>>, c: char)
    requires
        forall|i: int| 0 <= i < parts.len() ==> !(#[trigger] parts[i]).contains(c),
        forall|i: int| 0 <= i < parts.len() ==> (#[trigger] parts[i]).len() > 0,
    ensures
        filled_pieces(joined(parts, seq![c]), c) == parts,
{
    let keep = |p: Seq<char>| p.len() > 0;
    if parts.len() == 0 {
        let none = Seq::<char>::empty();
        assert(joined(parts, seq![c]) =~= none);
        assert(seq![none].filter(keep) =~= parts) by {
            reveal_with_fuel(Seq::filter, 2);
        }
    } else {
        split_undoes_join(parts, c);
        lemma_filter_all(parts, keep);
    }
}

proof fn lemma_filter_all<A>(items: Seq<A>, keep: spec_fn(A) -> bool)
    requires
        forall|i: int| 0 <= i < items.len() ==> keep(#[trigger] items[i]),
    ensures
        items.filter(keep) == items,
    decreases items.len(),
{
    reveal(Seq::filter);
    if items.len() > 0 {
        let rest = items.drop_last();
        assert forall|i: int| 0 <= i < rest.len() implies keep(#[trigger] rest[i]) by {
            assert(rest[i] == items[i]);
        }
        lemma_filter_all(rest, keep);
        assert(keep(items[items.len() - 1]));
        assert(rest.push(items.last()) =~= items);
    }
}

/// Splits `text` at every `c` and drops the empty pieces.
pub fn split_filled(text: &str, c: char) -> (out: Vec<String>)
    ensures
        out.deep_view() == filled_pieces(text@, c),
{
    let chars = char_list(text);
    let ghost keep = |p: Seq<char>| p.len() > 0;
    let mut out: Vec<String> = Vec::new();
    let mut current = String::new();
    let mut i: usize = 0;
    assert(chars@.take(0) =~= Seq::<char>::empty());
    assert(pieces(chars@.take(0), c).drop_last() =~= Seq::<Seq<char>>::empty());
    assert(out.deep_view() =~= Seq::<Seq<char>>::empty());
    assert(Seq::<Seq<char>>::empty().filter(keep) =~= Seq::<Seq<char>>::empty()) by {
        reveal(Seq::filter);
    }
    while i < chars.len()
        invariant
            i <= chars@.len(),
            chars@ == text@,
            keep == (|p: Seq<char>| p.len() > 0),
            pieces(chars@.take(i as int), c).len() > 0,
            current@ == pieces(chars@.take(i as int), c).last(),
            out.deep_view() == pieces(chars@.take(i as int), c).drop_last().filter(keep),
        decreases chars@.len() - i,
    {
        let ghost before = pieces(chars@.take(i as int), c);
        let ghost out_before = out.deep_view();
        proof {
            assert(chars@.take(i + 1).drop_last() =~= chars@.take(i as int));
            assert(chars@.take(i + 1).last() == chars@[i as int]);
        }
        if chars[i] == c {
            proof {
                assert(before.push(Seq::<char>::empty()).drop_last() =~= before);
                assert(before.drop_last().push(before.last()) =~= before);
                before.drop_last().lemma_filter_push(before.last(), keep);
            }
            if !current.as_str().is_empty() {
                out.push(current);
                assert(out.deep_view() =~= out_before.push(before.last()));
            }
            current = String::new();
        } else {
            proof {
                let next = before.drop_last().push(before.last().push(chars@[i as int]));
                assert(next.drop_last() =~= before.drop_last());
            }
            current.push(chars[i]);
        }
        i += 1;
    }
    proof {
        let all = pieces(text@, c);
        assert(chars@.take(i as int) =~= text@);
        assert(all.drop_last().push(all.last()) =~= all);
        all.drop_last().lemma_filter_push(all.last(), keep);
    }
    let ghost out_before = out.deep_view();
    if !current.as_str().is_empty() {
        let ghost last = current@;
        out.push(current);
        assert(out.deep_view() =~= out_before.push(last));
    }
    out
}

/// Whether `needle` occurs in `text` as a run of neighbouring characters.
pub open spec fn occurs(text: Seq<char>, needle: Seq<char>) -> bool {
    exists|i: int|
        0 <= i <= text.len() - needle.len() && #[trigger] text.subrange(i, i + needle.len())
            == needle
}

/// Whether the characters of `needle` stand in `text` from `at` on.
fn stands_at(text: &Vec<char>, at: usize, needle: &Vec<char>) -> (found: bool)
    requires
        at + needle@.len() <= text@.len(),
    ensures
        found == (text@.subrange(at as int, at + needle@.len()) == needle@),
{
    let mut j: usize = 0;
    while j < needle.len()
        invariant
            j <= needle@.len(),
            at + needle@.len() <= text.len(),
            forall|k: int| 0 <= k < j ==> text@[at + k] == #[trigger] needle@[k],
        decreases needle@.len() - j,
    {
        if text[at + j] != needle[j] {
            assert(text@.subrange(at as int, at + needle@.len())[j as int] != needle@[j as int]);
            return false;
        }
        j += 1;
    }
    assert(text@.subrange(at as int, at + needle@.len()) =~= needle@);
    true
}

/// Whether `needle` occurs in `text`.
pub fn contains(text: &str, needle: &str) -> (found: bool)
    ensures
        found == occurs(text@, needle@),
{
    let t = char_list(text);
    let n = char_list(needle);
    if n.len() > t.len() {
        return false;
    }
    let last: usize = t.len() - n.len();
    let mut i: usize = 0;
    loop
        invariant
            t@ == text@,
            n@ == needle@,
            last == t@.len() - n@.len(),
            i <= last,
            forall|k: int| 0 <= k < i ==> #[trigger] t@.subrange(k, k + n@.len()) != n@,
        decreases last - i,
    {
        if stands_at(&t, i, &n) {
            return true;
        }
        if i == last {
            return false;
        }
        i += 1;
    }
}

/// Whether `c` occurs in `text`.
pub fn has_char(text: &str, c: char) -> (found: bool)
    ensures
        found == text@.contains(c),
{
    let chars = char_list(text);
    let mut i: usize = 0;
    while i < chars.len()
        invariant
            i <= chars@.len(),
            chars@ == text@,
            forall|k: int| 0 <= k < i ==> text@[k] != c,
        decreases chars@.len() - i,
    {
        if chars[i] == c {
            assert(text@[i as int] == c);
            return true;
        }
        i += 1;
    }
    false
}

/// Whether `text` starts with `head`.
pub fn starts_with(text: &str, head: &str) -> (found: bool)
    ensures
        found == head@.is_prefix_of(text@),
{
    let t = char_list(text);
    let h = char_list(head);
    h.len() <= t.len() && stands_at(&t, 0, &h)
}

/// Whether `text` ends with `tail`.
pub fn ends_with(text: &str, tail: &str) -> (found: bool)
    ensures
        found == tail@.is_suffix_of(text@),
{
    let t = char_list(text);
    let n = char_list(tail);
    n.len() <= t.len() && stands_at(&t, t.len() - n.len(), &n)
}

/// Whether a character has the Unicode property `White_Space`.
pub open spec fn white_space(c: char) -> bool {
    let code = c as int;
    ||| 0x9 <= code <= 0xd
    ||| code == 0x20
    ||| code == 0x85
    ||| code == 0xa0
    ||| code == 0x1680
    ||| 0x2000 <= code <= 0x200a
    ||| code == 0x2028
    ||| code == 0x2029
    ||| code == 0x202f
    ||| code == 0x205f
    ||| code == 0x3000
}

/// `char::is_whitespace` tells whether a character has the Unicode property
/// `White_Space`: the characters listed in [`white_space`].
pub assume_specification[ char::is_whitespace ](c: char) -> (b: bool)
    ensures
        b == white_space(c),
;

/// `text` without its leading white space.
pub open spec fn trimmed_front(text: Seq<char>) -> Seq<char>
    decreases text.len(),
{
    if text.len() > 0 && white_space(text[0]) {
        trimmed_front(text.drop_first())
    } else {
        text
    }
}

/// `text` without its trailing white space.
pub open spec fn trimmed_back(text: Seq<char>) -> Seq<char>
    decreases text.len(),
{
    if text.len() > 0 && white_space(text.last()) {
        trimmed_back(text.drop_last())
    } else {
        text
    }
}

/// `text` without the white space at both ends.
pub open spec fn trimmed(text: Seq<char>) -> Seq<char> {
    trimmed_back(trimmed_front(text))
}

/// Removes the white space at both ends.
pub fn trim(text: &str) -> (out: String)
    ensures
        out@ == trimmed(text@),
{
    let chars = char_list(text);
    let mut from: usize = 0;
    assert(chars@.skip(0) =~= chars@);
    while from < chars.len() && chars[from].is_whitespace()
        invariant
            from <= chars@.len(),
            trimmed_front(chars@.skip(from as int)) == trimmed_front(chars@),
        decreases chars@.len() - from,
    {
        assert(chars@.skip(from as int).drop_first() =~= chars@.skip(from + 1));
        from += 1;
    }
    let ghost front = trimmed_front(chars@);
    assert(front == chars@.skip(from as int));
    let mut to: usize = chars.len();
    assert(chars@.subrange(from as int, to as int) =~= front);
    while from < to && chars[to - 1].is_whitespace()
        invariant
            from <= to <= chars@.len(),
            trimmed_back(chars@.subrange(from as int, to as int)) == trimmed_back(front),
        decreases to,
    {
        assert(chars@.subrange(from as int, to as int).drop_last() =~= chars@.subrange(
            from as int,
            to - 1,
        ));
        to -= 1;
    }
    string_of(&chars, from, to)
}

/// `text` without the run of `c` at its end.
pub open spec fn without_tail(text: Seq<char>, c: char) -> Seq<char>
    decreases text.len(),
{
    if text.len() > 0 && text.last() == c {
        without_tail(text.drop_last(), c)
    } else {
        text
    }
}

/// Removes every `c` at the end of `text`.
pub fn trim_end_char(text: &str, c: char) -> (out: String)
    ensures
        out@ == without_tail(text@, c),
{
    let chars = char_list(text);
    let mut to: usize = chars.len();
    assert(chars@.take(to as int) =~= chars@);
    while 0 < to && chars[to - 1] == c
        invariant
            to <= chars@.len(),
            without_tail(chars@.take(to as int), c) == without_tail(chars@, c),
        decreases to,
    {
        assert(chars@.take(to as int).drop_last() =~= chars@.take(to - 1));
        to -= 1;
    }
    assert(chars@.take(to as int) =~= chars@.subrange(0, to as int));
    string_of(&chars, 0, to)
}

/// The lower-case form of one ASCII letter; any other character is kept.
pub open spec fn ascii_lower(c: char) -> char {
    if 65 <= c as int <= 90 {
        (c as int + 32) as char
    } else {
        c
    }
}

/// Replaces the ASCII capitals by their lower-case forms.
pub fn to_ascii_lowercase(text: &str) -> (out: String)
    ensures
        out@ == text@.map_values(|c: char| ascii_lower(c)),
{
    let mut out = String::new();
    for c in it: text.chars()
        invariant
            it.seq() == text@,
            out@ == text@.take(it.index() as int).map_values(|c: char| ascii_lower(c)),
    {
        let code: u32 = code_point(c);
        if 65 <= code && code <= 90 {
            out.push((code as u8 + 32u8) as char);
        } else {
            out.push(c);
        }
        assert(out@ =~= text@.take(it.index() + 1).map_values(|c: char| ascii_lower(c)));
    }
    assert(out@ =~= text@.map_values(|c: char| ascii_lower(c)));
    out
}

/// Removes every `c` from `text`.
pub fn remove_char(text: &str, c: char) -> (out: String)
    ensures
        out@ == text@.filter(|x: char| x != c),
{
    let ghost keep = |x: char| x != c;
    let mut out = String::new();
    assert(text@.take(0).filter(keep) =~= Seq::<char>::empty()) by {
        reveal(Seq::filter);
    }
    for x in it: text.chars()
        invariant
            it.seq() == text@,
            keep == (|x: char| x != c),
            out@ == text@.take(it.index() as int).filter(keep),
    {
        proof {
            text@.take(it.index() as int).lemma_filter_push(x, keep);
            assert(text@.take(it.index() as int).push(x) =~= text@.take(it.index() + 1));
        }
        if x != c {
            out.push(x);
        }
    }
    assert(text@.take(text@.len() as int) =~= text@);
    out
}

/// Whether every character is an ASCII digit.
pub open spec fn all_digits(text: Seq<char>) -> bool {
    forall|i: int| 0 <= i < text.len() ==> 48 <= #[trigger] text[i] as int <= 57
}

/// The number that a run of ASCII digits denotes.
pub open spec fn digits_value(text: Seq<char>) -> nat
    decreases text.len(),
{
    if text.len() == 0 {
        0
    } else {
        digits_value(text.drop_last()) * 10 + (text.last() as int - 48) as nat
    }
}

/// The integer that `text` denotes: digits, at least one, behind at most one
/// sign, and a value that fits in 64 bits.
pub open spec fn integer_value(text: Seq<char>) -> Option<int> {
    let signed = text.len() > 0 && (text[0] == '-' || text[0] == '+');
    let body = if signed {
        text.drop_first()
    } else {
        text
    };
    let magnitude = digits_value(body) as int;
    let value = if signed && text[0] == '-' {
        -magnitude
    } else {
        magnitude
    };
    if body.len() > 0 && all_digits(body) && i64::MIN <= value <= i64::MAX {
        Some(value)
    } else {
        None
    }
}

proof fn lemma_digits_value_grows(text: Seq<char>, k: int)
    requires
        all_digits(text),
        0 <= k <= text.len(),
    ensures
        digits_value(text.take(k)) <= digits_value(text),
    decreases text.len(),
{
    if k < text.len() {
        lemma_digits_value_grows(text.drop_last(), k);
        assert(text.drop_last().take(k) =~= text.take(k));
    } else {
        assert(text.take(k) =~= text);
    }
}

proof fn lemma_digits_value(n: nat)
    ensures
        all_digits(digits(n)),
        digits_value(digits(n)) == n,
    decreases n,
{
    reveal_with_fuel(digits_value, 2);
    if n < 10 {
        assert(digits(n).drop_last() =~= Seq::<char>::empty());
    } else {
        lemma_digits_value(n / 10);
        assert(digits(n).drop_last() =~= digits(n / 10));
    }
}

proof fn lemma_zeros_in_front(zeros: nat, text: Seq<char>)
    ensures
        digits_value(Seq::new(zeros, |i: int| '0') + text) == digits_value(text),
    decreases text.len(), zeros,
{
    let front = Seq::new(zeros, |i: int| '0');
    let all = front + text;
    if text.len() > 0 {
        lemma_zeros_in_front(zeros, text.drop_last());
        assert(all.drop_last() =~= front + text.drop_last());
    } else if zeros > 0 {
        let fewer = Seq::new((zeros - 1) as nat, |i: int| '0');
        lemma_zeros_in_front((zeros - 1) as nat, text);
        assert(all.drop_last() =~= fewer + text);
    } else {
        assert(all =~= text);
    }
}

/// A numeral consists of digits and denotes its number, whatever its width.
pub proof fn numerals_denote_their_number(n: nat, width: nat)
    ensures
        all_digits(padded(n, width)),
        digits_value(padded(n, width)) == n,
{
    let text = digits(n);
    lemma_digits_value(n);
    if text.len() < width {
        let zeros = (width - text.len()) as nat;
        lemma_zeros_in_front(zeros, text);
    }
}

/// Reads a signed decimal integer of 64 bits.
pub fn parse_integer(text: &str) -> (out: Option<i64>)
    ensures
        out is Some <==> integer_value(text@) is Some,
        out matches Some(v) ==> integer_value(text@) == Some(v as int),
{
    let chars = char_list(text);
    let signed = chars.len() > 0 && (chars[0] == '-' || chars[0] == '+');
    let from: usize = if signed {
        1
    } else {
        0
    };
    let negative = signed && chars[0] == '-';
    let ghost body = chars@.skip(from as int);
    proof {
        if signed {
            assert(text@.drop_first() =~= body);
        } else {
            assert(text@ =~= body);
        }
    }
    if from == chars.len() {
        return None;
    }
    let mut value: i128 = 0;
    let mut i: usize = from;
    assert(body.take(0) =~= Seq::<char>::empty());
    while i < chars.len()
        invariant
            from <= i <= chars@.len(),
            from < chars@.len(),
            chars@ == text@,
            signed == (text@.len() > 0 && (text@[0] == '-' || text@[0] == '+')),
            from == (if signed {
                1int
            } else {
                0int
            }),
            body == chars@.skip(from as int),
            body == (if signed {
                text@.drop_first()
            } else {
                text@
            }),
            all_digits(body.take(i - from)),
            value == digits_value(body.take(i - from)),
            0 <= value <= 0x8000_0000_0000_0000,
        decreases chars@.len() - i,
    {
        let code: u32 = code_point(chars[i]);
        if code < 48 || code > 57 {
            assert(body[i - from] == chars@[i as int]);
            return None;
        }
        let next: i128 = value * 10 + (code as i128 - 48);
        proof {
            assert(body.take(i - from + 1).drop_last() =~= body.take(i - from));
            assert(body.take(i - from + 1).last() == chars@[i as int]);
            assert(next == digits_value(body.take(i - from + 1)));
        }
        if next > 0x8000_0000_0000_0000 {
            proof {
                if all_digits(body) {
                    lemma_digits_value_grows(body, i - from + 1);
                }
            }
            return None;
        }
        value = next;
        i += 1;
        proof {
            assert forall|k: int| 0 <= k < i - from implies 48 <= #[trigger] body.take(
                i - from,
            )[k] as int <= 57 by {
                if k < i - from - 1 {
                    assert(body.take(i - from - 1)[k] == body[k]);
                }
            }
        }
    }
    assert(body.take(i - from) =~= body);
    let result: i128 = if negative {
        -value
    } else {
        value
    };
    if result > i64::MAX as i128 {
        return None;
    }
    Some(result as i64)
}

/// The order of strings: by the first character in which they differ, a proper
/// prefix before the longer string.
pub open spec fn text_less(a: Seq<char>, b: Seq<char>) -> bool
    decreases a.len(),
{
    if b.len() == 0 {
        false
    } else if a.len() == 0 {
        true
    } else if a[0] != b[0] {
        (a[0] as int) < (b[0] as int)
    } else {
        text_less(a.drop_first(), b.drop_first())
    }
}

/// The order of strings is total: of two different ones exactly one is less.
pub proof fn text_order_is_total(a: Seq<char>, b: Seq<char>)
    ensures
        text_less(a, b) || text_less(b, a) || a == b,
        !(text_less(a, b) && text_less(b, a)),
        a == b ==> !text_less(a, b),
    decreases a.len(),
{
    if a.len() > 0 && b.len() > 0 && a[0] == b[0] {
        text_order_is_total(a.drop_first(), b.drop_first());
        assert(a =~= seq![a[0]] + a.drop_first());
        assert(b =~= seq![b[0]] + b.drop_first());
    } else if a.len() == 0 && b.len() == 0 {
        assert(a =~= b);
    }
}

/// The order of strings is transitive.
pub proof fn text_order_is_transitive(a: Seq<char>, b: Seq<char>, c: Seq<char>)
    requires
        text_less(a, b),
        text_less(b, c),
    ensures
        text_less(a, c),
    decreases a.len(),
{
    if a.len() > 0 && a[0] == b[0] && b[0] == c[0] {
        text_order_is_transitive(a.drop_first(), b.drop_first(), c.drop_first());
    }
}

/// Whether `a` comes before `b`.
pub fn text_before(a: &str, b: &str) -> (before: bool)
    ensures
        before == text_less(a@, b@),
{
    let x = char_list(a);
    let y = char_list(b);
    let mut i: usize = 0;
    assert(x@.skip(0) =~= x@);
    assert(y@.skip(0) =~= y@);
    loop
        invariant
            x@ == a@,
            y@ == b@,
            i <= x@.len(),
            i <= y@.len(),
            text_less(a@, b@) == text_less(x@.skip(i as int), y@.skip(i as int)),
        decreases x@.len() - i,
    {
        if i == y.len() {
            return false;
        }
        if i == x.len() {
            return true;
        }
        if x[i] != y[i] {
            return code_point(x[i]) < code_point(y[i]);
        }
        assert(x@.skip(i as int).drop_first() =~= x@.skip(i + 1));
        assert(y@.skip(i as int).drop_first() =~= y@.skip(i + 1));
        i += 1;
    }
}

}
