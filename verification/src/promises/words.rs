//! What is done to texts and numbers.
use crate::score;
use crate::seqs;
use crate::text;
use vstd::prelude::*;

verus! {

/// Numbers are compared by their values. A pattern beyond infinity is no number and
/// is in no order with anything; the two zeros are equal; otherwise equal numbers
/// have equal patterns, positive ones are ordered as their patterns, negative ones
/// the other way round, and a negative one is less than a positive one.
pub proof fn numbers_are_compared_by_value(a: u64, b: u64)
    ensures
        ({
            let a_nan = 0x7ff0_0000_0000_0000 < a < 0x8000_0000_0000_0000 || a
                > 0xfff0_0000_0000_0000;
            let b_nan = 0x7ff0_0000_0000_0000 < b < 0x8000_0000_0000_0000 || b
                > 0xfff0_0000_0000_0000;
            let a_zero = a == 0 || a == 0x8000_0000_0000_0000;
            let b_zero = b == 0 || b == 0x8000_0000_0000_0000;
            let a_below = a > 0x8000_0000_0000_0000;
            let b_below = b > 0x8000_0000_0000_0000;
            &&& score::is_nan(a) == a_nan
            &&& a_nan || b_nan ==> !score::score_eq(a, b) && !score::score_lt(a, b)
            &&& !a_nan && !b_nan ==> {
                &&& score::score_eq(a, b) <==> a == b || a_zero && b_zero
                &&& a_zero && b_zero ==> !score::score_lt(a, b)
                &&& !a_below && !b_below && !(a_zero && b_zero) ==> (score::score_lt(a, b)
                    <==> a_zero && !b_zero || !a_zero && !b_zero && a < b)
                &&& a_below && b_below ==> (score::score_lt(a, b) <==> a > b)
                &&& a_below && !b_below ==> score::score_lt(a, b)
                &&& !a_below && b_below ==> !score::score_lt(a, b)
            }
        }),
{
}

/// A numeral has one digit for each place: that of a number below ten is its digit,
/// and ten times a number and a digit more adds the digit behind it.
pub proof fn numerals_are_written_by_digits(n: nat, d: nat)
    requires
        d < 10,
    ensures
        text::decimal(d as int).len() == 1,
        text::decimal(d as int)[0] as int == 48 + d,
        n > 0 ==> text::decimal((10 * n + d) as int) == text::decimal(n as int).push(
            text::decimal(d as int)[0],
        ),
        n > 0 ==> text::decimal(-n) == "-"@ + text::decimal(n as int),
{
    reveal_strlit("-");
    assert("-"@ =~= seq!['-']);
    if n > 0 {
        assert((10 * n + d) / 10 == n && (10 * n + d) % 10 == d);
    }
}

/// A number of 64 bits that is written in decimal is read back.
pub proof fn written_numbers_are_read_back(n: i64)
    ensures
        text::integer_value(text::decimal(n as int)) == Some(n as int),
{
    let body = text::digits(
        if n < 0 {
            (-n) as nat
        } else {
            n as nat
        },
    );
    text::numerals_denote_their_number(
        if n < 0 {
            (-n) as nat
        } else {
            n as nat
        },
        0,
    );
    lemma_numeral_not_empty(
        if n < 0 {
            (-n) as nat
        } else {
            n as nat
        },
    );
    if n < 0 {
        assert(text::decimal(n as int).drop_first() =~= body);
    } else {
        assert(48 <= body[0] as int <= 57);
    }
}

proof fn lemma_numeral_not_empty(n: nat)
    ensures
        text::digits(n).len() > 0,
    decreases n,
{
    if n >= 10 {
        lemma_numeral_not_empty(n / 10);
    }
}

/// A text denotes an integer only where it is made of digits behind at most one
/// sign; one digit more makes ten times the number and the digit.
pub proof fn integers_are_read_by_digits(word: Seq<char>, d: char)
    requires
        48 <= d as int <= 57,
        word.len() > 0,
        forall|i: int| 0 <= i < word.len() ==> 48 <= #[trigger] word[i] as int <= 57,
    ensures
        text::integer_value(seq![d]) == Some(d as int - 48),
        text::integer_value(word) matches Some(n) ==> (10 * n + (d as int - 48) <= i64::MAX
            ==> text::integer_value(word.push(d)) == Some(10 * n + (d as int - 48))),
        text::integer_value(word) matches Some(n) ==> text::integer_value("+"@ + word) == Some(n)
            && text::integer_value("-"@ + word) == Some(-n),
        text::integer_value(word) matches Some(n) ==> (10 * n + (d as int - 48) > i64::MAX
            ==> text::integer_value(word.push(d)) is None),
{
    reveal_strlit("+");
    reveal_strlit("-");
    reveal_with_fuel(text::digits_value, 2);
    assert(seq![d].drop_last() =~= Seq::<char>::empty());
    assert(word.push(d).drop_last() =~= word);
    assert(48 <= word[0] as int <= 57);
    assert(word.push(d)[0] == word[0]);
    assert forall|i: int| 0 <= i < word.push(d).len() implies 48 <= #[trigger] word.push(
        d,
    )[i] as int <= 57 by {
        if i < word.len() {
            assert(word.push(d)[i] == word[i]);
        }
    }
    assert(("+"@ + word).drop_first() =~= word);
    assert(("-"@ + word).drop_first() =~= word);
}

/// A text with any other character than digits behind a sign is no integer, nor is
/// one without a digit.
pub proof fn other_words_are_no_integers(word: Seq<char>, i: int)
    requires
        0 <= i < word.len(),
        !(48 <= word[i] as int <= 57),
        i > 0 || (word[0] != '+' && word[0] != '-'),
    ensures
        text::integer_value(word) is None,
        text::integer_value(Seq::empty()) is None,
        text::integer_value("+"@) is None,
        text::integer_value("-"@) is None,
{
    reveal_strlit("+");
    reveal_strlit("-");
    if word[0] == '+' || word[0] == '-' {
        assert(word.drop_first()[i - 1] == word[i]);
    }
}

/// A numeral is filled up to its width with zeros in front, and never cut.
pub proof fn numerals_are_filled_with_zeros(n: nat, width: nat)
    ensures
        ({
            let out = text::padded(n, width);
            let plain = text::decimal(n as int);
            &&& out.len() == if plain.len() < width {
                width
            } else {
                plain.len()
            }
            &&& plain.is_suffix_of(out)
            &&& forall|i: int| 0 <= i < out.len() - plain.len() ==> #[trigger] out[i] == '0'
        }),
{
    let out = text::padded(n, width);
    let plain = text::decimal(n as int);
    assert(out.subrange(out.len() - plain.len(), out.len() as int) =~= plain);
}

/// Joined parts stand behind one another with the separator between neighbours.
pub proof fn parts_are_joined_in_order(
    parts: Seq<Seq<char>>,
    part: Seq<char>,
    sep: Seq<char>,
)
    ensures
        text::joined(Seq::empty(), sep) == Seq::<char>::empty(),
        text::joined(seq![part], sep) == part,
        parts.len() > 0 ==> text::joined(parts.push(part), sep) == text::joined(parts, sep) + sep
            + part,
{
    assert(seq![part].skip(1) =~= Seq::<Seq<char>>::empty());
    assert(text::joined(seq![part], sep) =~= part);
    if parts.len() > 0 {
        let more = parts.push(part);
        assert(more.skip(1).drop_last() =~= parts.skip(1));
        assert(more.skip(1).last() == part);
        assert(text::joined(more, sep) =~= text::joined(parts, sep) + sep + part);
    }
}

/// The pieces of a text between a character hold that character nowhere, and joined
/// by it they are the text again.
pub proof fn pieces_are_cut_everywhere(word: Seq<char>, c: char)
    ensures
        forall|i: int|
            0 <= i < text::pieces(word, c).len() ==> !(#[trigger] text::pieces(word, c)[i]).contains(
                c,
            ),
        text::joined(text::pieces(word, c), seq![c]) == word,
    decreases word.len(),
{
    text::join_undoes_split(word, c);
    if word.len() > 0 {
        let rest = word.drop_last();
        let before = text::pieces(rest, c);
        let out = text::pieces(word, c);
        pieces_are_cut_everywhere(rest, c);
        text::lemma_pieces_not_empty(rest, c);
        assert forall|i: int| 0 <= i < out.len() implies !(#[trigger] out[i]).contains(c) by {
            if i < before.len() - 1 {
                assert(out[i] == before[i]);
            } else if word.last() == c {
                if i == before.len() - 1 {
                    assert(out[i] == before[i]);
                }
            } else {
                let last = before[before.len() - 1];
                assert(!last.contains(c));
                if out[i].contains(c) {
                    let k = choose|k: int| 0 <= k < out[i].len() && out[i][k] == c;
                    if k < last.len() {
                        assert(last[k] == c);
                    }
                }
            }
        }
    }
}

/// Only the empty pieces are left out of the filled ones.
pub proof fn filled_pieces_are_the_others(word: Seq<char>, c: char) -> (places: Seq<int>)
    ensures
        seqs::are_places(places, text::pieces(word, c).len()),
        text::filled_pieces(word, c).len() == places.len(),
        forall|i: int|
            0 <= i < text::pieces(word, c).len() ==> (#[trigger] places.contains(i) <==> text::pieces(
                word,
                c,
            )[i].len() > 0),
        forall|k: int|
            0 <= k < places.len() ==> text::filled_pieces(word, c)[k] == text::pieces(
                word,
                c,
            )[#[trigger] places[k]],
{
    seqs::lemma_filter_places(text::pieces(word, c), |p: Seq<char>| p.len() > 0)
}

/// White space is what Unicode counts as such: tabs and line ends, the spaces of any
/// width, and the separators of lines and paragraphs.
pub proof fn white_space_is_spaces_and_line_ends(c: char)
    ensures
        text::white_space(c) <==> seq![
            '\u{9}',
            '\u{a}',
            '\u{b}',
            '\u{c}',
            '\u{d}',
            '\u{20}',
            '\u{85}',
            '\u{a0}',
            '\u{1680}',
            '\u{2028}',
            '\u{2029}',
            '\u{202f}',
            '\u{205f}',
            '\u{3000}',
        ].contains(c) || '\u{2000}' <= c <= '\u{200a}',
{
    let listed = seq![
        '\u{9}',
        '\u{a}',
        '\u{b}',
        '\u{c}',
        '\u{d}',
        '\u{20}',
        '\u{85}',
        '\u{a0}',
        '\u{1680}',
        '\u{2028}',
        '\u{2029}',
        '\u{202f}',
        '\u{205f}',
        '\u{3000}',
    ];
    assert(listed.len() == 14);
    assert(listed[0] == '\u{9}' && listed[1] == '\u{a}' && listed[2] == '\u{b}' && listed[3]
        == '\u{c}' && listed[4] == '\u{d}' && listed[5] == '\u{20}' && listed[6] == '\u{85}'
        && listed[7] == '\u{a0}' && listed[8] == '\u{1680}' && listed[9] == '\u{2028}'
        && listed[10] == '\u{2029}' && listed[11] == '\u{202f}' && listed[12] == '\u{205f}'
        && listed[13] == '\u{3000}');
}

/// What is trimmed off a text is white space at its ends, and all of it.
pub proof fn only_white_space_is_trimmed(word: Seq<char>) -> (ends: (int, int))
    ensures
        0 <= ends.0 <= ends.1 <= word.len(),
        text::trimmed(word) == word.subrange(ends.0, ends.1),
        forall|i: int|
            0 <= i < ends.0 || ends.1 <= i < word.len() ==> text::white_space(#[trigger] word[i]),
        ends.0 < ends.1 ==> !text::white_space(word[ends.0]) && !text::white_space(
            word[ends.1 - 1],
        ),
{
    let from = lemma_front(word);
    let front = text::trimmed_front(word);
    let to = lemma_back(front);
    assert(front =~= word.skip(from));
    assert(text::trimmed(word) =~= word.subrange(from, from + to));
    assert forall|i: int| 0 <= i < from || from + to <= i < word.len() implies text::white_space(
        #[trigger] word[i],
    ) by {
        if i >= from + to {
            assert(front[i - from] == word[i]);
        }
    }
    if to > 0 {
        assert(front[0] == word[from]);
        assert(front[to - 1] == word[from + to - 1]);
    }
    (from, from + to)
}

proof fn lemma_front(word: Seq<char>) -> (from: int)
    ensures
        0 <= from <= word.len(),
        text::trimmed_front(word) == word.skip(from),
        forall|i: int| 0 <= i < from ==> text::white_space(#[trigger] word[i]),
        from < word.len() ==> !text::white_space(word[from]),
    decreases word.len(),
{
    if word.len() > 0 && text::white_space(word[0]) {
        let rest = word.drop_first();
        let k = lemma_front(rest);
        assert(rest.skip(k) =~= word.skip(k + 1));
        assert forall|i: int| 0 <= i < k + 1 implies text::white_space(#[trigger] word[i]) by {
            if i > 0 {
                assert(rest[i - 1] == word[i]);
            }
        }
        if k < rest.len() {
            assert(rest[k] == word[k + 1]);
        }
        k + 1
    } else {
        assert(word.skip(0) =~= word);
        0
    }
}

proof fn lemma_back(word: Seq<char>) -> (to: int)
    ensures
        0 <= to <= word.len(),
        text::trimmed_back(word) == word.take(to),
        forall|i: int| to <= i < word.len() ==> text::white_space(#[trigger] word[i]),
        to > 0 ==> !text::white_space(word[to - 1]),
        word.len() > 0 && !text::white_space(word[0]) ==> to > 0,
    decreases word.len(),
{
    if word.len() > 0 && text::white_space(word.last()) {
        let rest = word.drop_last();
        let k = lemma_back(rest);
        assert(rest.take(k) =~= word.take(k));
        assert forall|i: int| k <= i < word.len() implies text::white_space(#[trigger] word[i]) by {
            if i < rest.len() {
                assert(rest[i] == word[i]);
            }
        }
        if k > 0 {
            assert(rest[k - 1] == word[k - 1]);
        }
        if rest.len() > 0 {
            assert(rest[0] == word[0]);
        }
        k
    } else {
        assert(word.take(word.len() as int) =~= word);
        word.len() as int
    }
}

/// Only the character is taken off the end of a text, and all of it.
pub proof fn only_the_tail_is_cut(word: Seq<char>, c: char) -> (to: int)
    ensures
        0 <= to <= word.len(),
        text::without_tail(word, c) == word.take(to),
        forall|i: int| to <= i < word.len() ==> #[trigger] word[i] == c,
        to > 0 ==> word[to - 1] != c,
    decreases word.len(),
{
    if word.len() > 0 && word.last() == c {
        let rest = word.drop_last();
        let k = only_the_tail_is_cut(rest, c);
        assert(rest.take(k) =~= word.take(k));
        assert forall|i: int| k <= i < word.len() implies #[trigger] word[i] == c by {
            if i < rest.len() {
                assert(rest[i] == word[i]);
            }
        }
        if k > 0 {
            assert(rest[k - 1] == word[k - 1]);
        }
        k
    } else {
        assert(word.take(word.len() as int) =~= word);
        word.len() as int
    }
}

/// A text comes before another one by the first character in which they differ, or
/// where it ends before they do.
pub proof fn texts_are_ordered_by_the_first_difference(a: Seq<char>, b: Seq<char>, k: int)
    requires
        0 <= k <= a.len(),
        k <= b.len(),
        forall|i: int| 0 <= i < k ==> #[trigger] a[i] == b[i],
    ensures
        k < a.len() && k < b.len() && a[k] != b[k] ==> (text::text_less(a, b) <==> (a[k] as int) < (
        b[k] as int)),
        k == a.len() && k < b.len() ==> text::text_less(a, b) && !text::text_less(b, a),
        k == a.len() && k == b.len() ==> !text::text_less(a, b),
    decreases k,
{
    if k > 0 {
        let x = a.drop_first();
        let y = b.drop_first();
        assert(a[0] == b[0]);
        assert forall|i: int| 0 <= i < k - 1 implies #[trigger] x[i] == y[i] by {
            assert(a[i + 1] == b[i + 1]);
        }
        texts_are_ordered_by_the_first_difference(x, y, k - 1);
        if k < a.len() {
            assert(x[k - 1] == a[k]);
        }
        if k < b.len() {
            assert(y[k - 1] == b[k]);
        }
    }
}

/// A text occurs in another one exactly where that is made of something, the text
/// and something.
pub proof fn occurrence_is_being_a_part(whole: Seq<char>, part: Seq<char>)
    ensures
        text::occurs(whole, part) <==> exists|a: Seq<char>, b: Seq<char>|
            whole == #[trigger] (a + part + b),
{
    if text::occurs(whole, part) {
        let i = choose|i: int|
            0 <= i <= whole.len() - part.len() && #[trigger] whole.subrange(i, i + part.len())
                == part;
        let a = whole.take(i);
        let b = whole.skip(i + part.len());
        assert(whole =~= a + part + b);
    }
    if exists|a: Seq<char>, b: Seq<char>| whole == #[trigger] (a + part + b) {
        let (a, b) = choose|a: Seq<char>, b: Seq<char>| whole == #[trigger] (a + part + b);
        assert(whole.subrange(a.len() as int, a.len() as int + part.len()) =~= part);
    }
}

/// Only the capital letters of ASCII are made small, each the same letter.
pub proof fn capitals_are_made_small(c: char)
    ensures
        'A' <= c <= 'Z' ==> text::ascii_lower(c) as int == c as int + 32,
        !('A' <= c <= 'Z') ==> text::ascii_lower(c) == c,
{
}

}
