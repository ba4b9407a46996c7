//! What holds of every text: where it is trimmed, split, joined, replaced and read as a number.

use vstd::prelude::*;

use crate::text::all_digits;
use crate::text::ascii_lower;
use crate::text::contains;
use crate::text::decimal;
use crate::text::digit;
use crate::text::digits_value;
use crate::text::ends_with;
use crate::text::first_chars;
use crate::text::hex;
use crate::text::is_alnum;
use crate::text::is_ascii_white;
use crate::text::is_digit;
use crate::text::is_white;
use crate::text::join;
use crate::text::lines;
use crate::text::lower;
use crate::text::nonblank;
use crate::text::occurs_at;
use crate::text::padded;
use crate::text::replace;
use crate::text::split;
use crate::text::starts_with;
use crate::text::trim;
use crate::text::trim_end;
use crate::text::trim_end_char;
use crate::text::trim_start;
use crate::text::trim_start_char;
use crate::text::unsigned;
use crate::text::words;

verus! {

proof fn lemma_trim_start_cut(s: Seq<char>) -> (i: int)
    ensures
        0 <= i <= s.len(),
        trim_start(s) == s.skip(i),
        forall|k: int| 0 <= k < i ==> is_white(#[trigger] s[k]),
        i < s.len() ==> !is_white(s[i]),
    decreases s.len(),
{
    if s.len() > 0 && is_white(s[0]) {
        let j = lemma_trim_start_cut(s.skip(1));
        assert(s.skip(1).skip(j) =~= s.skip(j + 1));
        assert forall|k: int| 0 <= k < j + 1 implies is_white(#[trigger] s[k]) by {
            if k > 0 {
                assert(s.skip(1)[k - 1] == s[k]);
            }
        }
        if j + 1 < s.len() {
            assert(s.skip(1)[j] == s[j + 1]);
        }
        j + 1
    } else {
        assert(s.skip(0) =~= s);
        0
    }
}

proof fn lemma_trim_end_cut(s: Seq<char>) -> (j: int)
    ensures
        0 <= j <= s.len(),
        trim_end(s) == s.take(j),
        forall|k: int| j <= k < s.len() ==> is_white(#[trigger] s[k]),
        j > 0 ==> !is_white(s[j - 1]),
    decreases s.len(),
{
    if s.len() > 0 && is_white(s.last()) {
        let front = s.drop_last();
        let j = lemma_trim_end_cut(front);
        assert(front.take(j) =~= s.take(j));
        assert forall|k: int| j <= k < s.len() implies is_white(#[trigger] s[k]) by {
            if k < front.len() {
                assert(front[k] == s[k]);
            }
        }
        if j > 0 {
            assert(front[j - 1] == s[j - 1]);
        }
        j
    } else {
        assert(s.take(s.len() as int) =~= s);
        s.len() as int
    }
}

/// Trimming takes the white space off both ends, all of it, and nothing else: `cut` tells where
/// the trimmed text begins and ends.
pub proof fn lemma_trimming_takes_the_ends_off(s: Seq<char>) -> (cut: (int, int))
    ensures
        0 <= cut.0 <= cut.1 <= s.len(),
        trim(s) == s.subrange(cut.0, cut.1),
        forall|k: int| 0 <= k < cut.0 ==> is_white(#[trigger] s[k]),
        forall|k: int| cut.1 <= k < s.len() ==> is_white(#[trigger] s[k]),
        cut.0 < cut.1 ==> !is_white(s[cut.0]) && !is_white(s[cut.1 - 1]),
{
    let i = lemma_trim_start_cut(s);
    let t = s.skip(i);
    let j = lemma_trim_end_cut(t);
    assert(t.take(j) =~= s.subrange(i, i + j));
    assert forall|k: int| i + j <= k < s.len() implies is_white(#[trigger] s[k]) by {
        assert(t[k - i] == s[k]);
    }
    if j > 0 {
        assert(t[j - 1] == s[i + j - 1]);
    }
    (i, i + j)
}

/// ASCII's white space is the space and what lies between tab and carriage return.
pub proof fn lemma_ascii_white_space(c: char)
    requires
        c as u32 <= 0x7f,
    ensures
        is_white(c) <==> c == ' ' || ('\t' <= c && c <= '\r'),
{
}

/// A character's run at the beginning of a text is taken off, all of it, and nothing else.
pub proof fn lemma_leading_runs_are_taken_off(s: Seq<char>, c: char) -> (i: int)
    ensures
        0 <= i <= s.len(),
        trim_start_char(s, c) == s.skip(i),
        forall|k: int| 0 <= k < i ==> #[trigger] s[k] == c,
        i < s.len() ==> s[i] != c,
    decreases s.len(),
{
    if s.len() > 0 && s[0] == c {
        let j = lemma_leading_runs_are_taken_off(s.skip(1), c);
        assert(s.skip(1).skip(j) =~= s.skip(j + 1));
        assert forall|k: int| 0 <= k < j + 1 implies #[trigger] s[k] == c by {
            if k > 0 {
                assert(s.skip(1)[k - 1] == s[k]);
            }
        }
        if j + 1 < s.len() {
            assert(s.skip(1)[j] == s[j + 1]);
        }
        j + 1
    } else {
        assert(s.skip(0) =~= s);
        0
    }
}

/// A character's run at the end of a text is taken off, all of it, and nothing else.
pub proof fn lemma_trailing_runs_are_taken_off(s: Seq<char>, c: char) -> (j: int)
    ensures
        0 <= j <= s.len(),
        trim_end_char(s, c) == s.take(j),
        forall|k: int| j <= k < s.len() ==> #[trigger] s[k] == c,
        j > 0 ==> s[j - 1] != c,
    decreases s.len(),
{
    if s.len() > 0 && s.last() == c {
        let front = s.drop_last();
        let j = lemma_trailing_runs_are_taken_off(front, c);
        assert(front.take(j) =~= s.take(j));
        assert forall|k: int| j <= k < s.len() implies #[trigger] s[k] == c by {
            if k < front.len() {
                assert(front[k] == s[k]);
            }
        }
        if j > 0 {
            assert(front[j - 1] == s[j - 1]);
        }
        j
    } else {
        assert(s.take(s.len() as int) =~= s);
        s.len() as int
    }
}

/// Lower case changes the 26 capitals, each into its small letter, and no other character.
pub proof fn lemma_lower_case_changes_capitals_alone(s: Seq<char>, i: int)
    requires
        0 <= i < s.len(),
    ensures
        ascii_lower(s).len() == s.len(),
        'A' <= s[i] <= 'Z' ==> ascii_lower(s)[i] as u32 == s[i] as u32 + 32,
        !('A' <= s[i] <= 'Z') ==> ascii_lower(s)[i] == s[i],
        lower('A') == 'a',
        lower('Z') == 'z',
{
}

/// A text holds another exactly where it can be cut before and after it.
pub proof fn lemma_texts_hold_what_they_are_made_of(a: Seq<char>, p: Seq<char>, b: Seq<char>)
    ensures
        contains(a + p + b, p),
        starts_with(p + b, p),
        ends_with(a + p, p),
        occurs_at(a + p + b, p, a.len() as int),
{
    assert((a + p + b).subrange(a.len() as int, (a.len() + p.len()) as int) =~= p);
    assert((p + b).subrange(0, p.len() as int) =~= p);
    assert((a + p).subrange(a.len() as int, (a.len() + p.len()) as int) =~= p);
    assert(occurs_at(a + p + b, p, a.len() as int));
}

/// What a text holds stands in it, character by character.
pub proof fn lemma_held_texts_stand_in_it(s: Seq<char>, p: Seq<char>)
    ensures
        contains(s, p) ==> exists|i: int|
            0 <= i <= s.len() - p.len() && #[trigger] s.subrange(i, i + p.len()) == p,
        starts_with(s, p) ==> p.len() <= s.len() && forall|k: int|
            0 <= k < p.len() ==> #[trigger] s[k] == p[k],
        ends_with(s, p) ==> p.len() <= s.len() && forall|k: int|
            0 <= k < p.len() ==> #[trigger] p[k] == s[s.len() - p.len() + k],
{
    if contains(s, p) {
        let i = choose|i: int| occurs_at(s, p, i);
        assert(s.subrange(i, i + p.len()) == p);
    }
    if starts_with(s, p) {
        assert forall|k: int| 0 <= k < p.len() implies #[trigger] s[k] == p[k] by {
            assert(s.subrange(0, p.len() as int)[k] == s[k]);
        }
    }
    if ends_with(s, p) {
        let at = s.len() - p.len();
        assert forall|k: int| 0 <= k < p.len() implies #[trigger] p[k] == s[at + k] by {
            assert(s.subrange(at, at + p.len())[k] == s[at + k]);
        }
    }
}

/// A text that doesn't hold what is replaced stays as it is.
pub proof fn lemma_nothing_to_replace(s: Seq<char>, from: Seq<char>, to: Seq<char>)
    requires
        !contains(s, from),
    ensures
        replace(s, from, to) == s,
    decreases s.len(),
{
    if from.len() > 0 && s.len() > 0 {
        assert(!occurs_at(s, from, 0));
        let rest = s.skip(1);
        if contains(rest, from) {
            let i = choose|i: int| occurs_at(rest, from, i);
            assert(rest.subrange(i, i + from.len()) =~= s.subrange(i + 1, i + 1 + from.len()));
            assert(occurs_at(s, from, i + 1));
        }
        lemma_nothing_to_replace(rest, from, to);
        assert(seq![s[0]] + rest =~= s);
    }
}

/// The first occurrence is replaced, what stands before it stays, and what follows it is gone
/// through in the same way. With the texts that hold nothing to replace, this says what becomes
/// of every text.
pub proof fn lemma_occurrences_are_replaced(
    a: Seq<char>,
    from: Seq<char>,
    b: Seq<char>,
    to: Seq<char>,
)
    requires
        from.len() > 0,
        forall|i: int| 0 <= i < a.len() ==> !#[trigger] occurs_at(a + from + b, from, i),
    ensures
        replace(a + from + b, from, to) == a + to + replace(b, from, to),
    decreases a.len(),
{
    let s = a + from + b;
    if a.len() == 0 {
        assert(s.subrange(0, from.len() as int) =~= from);
        assert(s.skip(from.len() as int) =~= b);
        assert(a + to + replace(b, from, to) =~= to + replace(b, from, to));
    } else {
        assert(!occurs_at(s, from, 0));
        let rest = a.skip(1);
        let t = rest + from + b;
        assert(s.skip(1) =~= t);
        assert forall|i: int| 0 <= i < rest.len() implies !#[trigger] occurs_at(t, from, i) by {
            if occurs_at(t, from, i) {
                assert(t.subrange(i, i + from.len()) =~= s.subrange(i + 1, i + 1 + from.len()));
                assert(occurs_at(s, from, i + 1));
            }
        }
        lemma_occurrences_are_replaced(rest, from, b, to);
        assert(seq![s[0]] + (rest + to + replace(b, from, to)) =~= a + to + replace(b, from, to));
    }
}

/// The pieces of a text: one where the character doesn't occur, and around an occurrence those
/// of what stands before it and of what follows it.
pub proof fn lemma_texts_are_split_at_the_character(a: Seq<char>, c: char, b: Seq<char>)
    ensures
        split(a, c).len() > 0,
        (forall|i: int| 0 <= i < a.len() ==> #[trigger] a[i] != c) ==> split(a, c) == seq![a],
        split(a + seq![c] + b, c) == split(a, c) + split(b, c),
    decreases b.len(), a.len(),
{
    if b.len() == 0 {
        let s = a + seq![c] + b;
        assert(s.drop_last() =~= a);
        assert(s.last() == c);
        assert(b =~= Seq::<char>::empty());
        assert(split(b, c) =~= seq![Seq::<char>::empty()]);
        if a.len() > 0 {
            lemma_texts_are_split_at_the_character(a.drop_last(), c, b);
            if forall|i: int| 0 <= i < a.len() ==> #[trigger] a[i] != c {
                assert forall|i: int| 0 <= i < a.drop_last().len() implies #[trigger] a.drop_last()[i]
                    != c by {
                    assert(a[i] != c);
                }
                assert(a[a.len() - 1] != c);
                assert(split(a, c) =~= seq![a]) by {
                    assert(split(a.drop_last(), c) == seq![a.drop_last()]);
                    assert(a.drop_last().push(a.last()) =~= a);
                }
            }
        } else {
            assert(a =~= Seq::<char>::empty());
        }
        assert(split(s, c) =~= split(a, c) + split(b, c));
    } else {
        let front = b.drop_last();
        lemma_texts_are_split_at_the_character(a, c, front);
        lemma_texts_are_split_at_the_character(front, c, Seq::empty());
        let s = a + seq![c] + b;
        assert(s.drop_last() =~= a + seq![c] + front);
        assert(s.last() == b.last());
        let x = split(a, c);
        let y = split(front, c);
        assert((x + y).last() == y.last());
        assert((x + y).drop_last() =~= x + y.drop_last());
        assert(split(s, c) =~= x + split(b, c));
    }
}

/// A text's lines: each line feed ends one, and takes the carriage return before it; what
/// follows the last is a line unless it is empty.
pub proof fn lemma_lines_end_at_line_feeds(a: Seq<char>, b: Seq<char>)
    requires
        forall|i: int| 0 <= i < a.len() ==> #[trigger] a[i] != '\n',
    ensures
        a.len() == 0 ==> lines(a) == Seq::<Seq<char>>::empty(),
        a.len() > 0 ==> lines(a) == seq![a],
        lines(a + seq!['\n'] + b) == seq![
            if a.len() > 0 && a.last() == '\r' {
                a.drop_last()
            } else {
                a
            },
        ] + lines(b),
{
    lemma_texts_are_split_at_the_character(a, '\n', b);
    lemma_texts_are_split_at_the_character(b, '\n', Seq::empty());
    let s = a + seq!['\n'] + b;
    let x = split(b, '\n');
    let parts = split(s, '\n');
    assert(parts == seq![a] + x);
    assert(parts.drop_last() =~= seq![a] + x.drop_last());
    assert(parts.last() == x.last());
    assert(seq![a].drop_last() =~= Seq::<Seq<char>>::empty());
    assert(lines(a) =~= if a.len() == 0 {
        Seq::<Seq<char>>::empty()
    } else {
        seq![a]
    });
    assert(lines(s) =~= seq![
        if a.len() > 0 && a.last() == '\r' {
            a.drop_last()
        } else {
            a
        },
    ] + lines(b));
}

/// A text's words: white space adds none, and what follows white space, or begins the text, and
/// holds none itself, is one more.
pub proof fn lemma_words_stand_between_white_space(a: Seq<char>, x: char, w: Seq<char>)
    requires
        is_white(x),
        w.len() > 0,
        forall|i: int| 0 <= i < w.len() ==> !is_white(#[trigger] w[i]),
    ensures
        words(Seq::empty()) == Seq::<Seq<char>>::empty(),
        words(a + seq![x]) == words(a),
        a.len() == 0 || is_white(a.last()) ==> words(a + w) == words(a).push(w),
    decreases w.len(),
{
    assert((a + seq![x]).drop_last() =~= a);
    let s = a + w;
    let front = w.drop_last();
    assert(s.drop_last() =~= a + front);
    assert(s.last() == w.last());
    assert(!is_white(w[w.len() - 1]));
    if a.len() == 0 || is_white(a.last()) {
        if front.len() == 0 {
            assert(a + front =~= a);
            assert(w =~= seq![w.last()]);
            if a.len() > 0 {
                assert(s[s.len() - 2] == a.last());
            }
        } else {
            assert forall|i: int| 0 <= i < front.len() implies !is_white(#[trigger] front[i]) by {
                assert(front[i] == w[i]);
            }
            lemma_words_stand_between_white_space(a, x, front);
            assert(s[s.len() - 2] == w[w.len() - 2]);
            assert(!is_white(w[w.len() - 2]));
            let before = words(a).push(front);
            assert(before.drop_last() =~= words(a));
            assert(front.push(w.last()) =~= w);
        }
    }
}

/// Joined parts stand one after the other, with the separator between two.
pub proof fn lemma_parts_are_joined_in_order(
    parts: Seq<Seq<char>>,
    last: Seq<char>,
    sep: Seq<char>,
)
    ensures
        join(Seq::empty(), sep) == Seq::<char>::empty(),
        parts.len() == 0 ==> join(parts.push(last), sep) == last,
        parts.len() > 0 ==> join(parts.push(last), sep) == join(parts, sep) + sep + last,
{
    assert(parts.push(last).drop_last() =~= parts);
}

/// A list's entries are its pieces, trimmed and in their order, but for the blank ones.
pub proof fn lemma_entries_are_the_pieces_with_text(parts: Seq<Seq<char>>)
    ensures
        nonblank(parts) == parts.map_values(|p: Seq<char>| trim(p)).filter(
            |p: Seq<char>| p.len() > 0,
        ),
    decreases parts.len(),
{
    reveal(Seq::filter);
    let all = parts.map_values(|p: Seq<char>| trim(p));
    if parts.len() > 0 {
        lemma_entries_are_the_pieces_with_text(parts.drop_last());
        assert(all.drop_last() =~= parts.drop_last().map_values(|p: Seq<char>| trim(p)));
        assert(all.last() == trim(parts.last()));
    }
}

/// The first characters of a text are as many as are wanted, or all there are.
pub proof fn lemma_first_characters_come_first(s: Seq<char>, n: nat)
    ensures
        first_chars(s, n).len() == if s.len() < n {
            s.len()
        } else {
            n
        },
        forall|i: int| 0 <= i < first_chars(s, n).len() ==> #[trigger] first_chars(s, n)[i] == s[i],
{
}

/// A number is written in digits alone, reads back as itself, and has no zero in front.
pub proof fn lemma_numbers_read_back(n: nat)
    ensures
        all_digits(decimal(n)),
        digits_value(decimal(n)) == n,
        decimal(n).len() > 0,
        n > 0 ==> decimal(n)[0] != '0',
        decimal(0) == seq!['0'],
    decreases n,
{
    if n < 10 {
        assert(decimal(n).drop_last() =~= Seq::<char>::empty());
        assert(digits_value(Seq::<char>::empty()) == 0);
        assert(decimal(n).last() == digit(n));
    } else {
        lemma_numbers_read_back(n / 10);
        let d = decimal(n);
        assert(d.drop_last() =~= decimal(n / 10));
        assert(d.last() == digit(n % 10));
        assert forall|i: int| 0 <= i < d.len() implies is_digit(#[trigger] d[i]) by {
            if i < d.len() - 1 {
                assert(d[i] == decimal(n / 10)[i]);
            }
        }
        assert(d[0] == decimal(n / 10)[0]);
    }
}

/// A padded number has zeros in front up to its width, and is otherwise as it is written.
pub proof fn lemma_padding_adds_zeros(n: nat, width: nat)
    ensures
        padded(n, width).len() >= width,
        padded(n, width).len() == width || padded(n, width) == decimal(n),
        ends_with(padded(n, width), decimal(n)),
        forall|i: int|
            0 <= i < padded(n, width).len() - decimal(n).len() ==> #[trigger] padded(n, width)[i]
                == '0',
{
    let d = decimal(n);
    let p = padded(n, width);
    assert(p.subrange(p.len() - d.len(), p.len() as int) =~= d);
}

/// One more digit makes ten times the number and the digit.
pub proof fn lemma_digits_count_tenfold(s: Seq<char>, d: nat)
    requires
        d < 10,
    ensures
        digits_value(Seq::empty()) == 0,
        digits_value(s.push(digit(d))) == digits_value(s) * 10 + d,
        is_digit(digit(d)),
{
    assert(s.push(digit(d)).drop_last() =~= s);
}

/// A written number is read, with or without a plus sign, as far as it fits; nothing else is.
pub proof fn lemma_only_numbers_are_read(s: Seq<char>, n: nat, max: nat)
    ensures
        unsigned(decimal(n), max) == if n <= max {
            Some(n)
        } else {
            None
        },
        unsigned(seq!['+'] + decimal(n), max) == unsigned(decimal(n), max),
        s.len() == 0 ==> unsigned(s, max) is None,
        (exists|i: int| 0 < i < s.len() && !is_digit(#[trigger] s[i])) ==> unsigned(s, max) is None,
        s.len() > 0 && !is_digit(s[0]) && s[0] != '+' ==> unsigned(s, max) is None,
        unsigned(s, max) is Some ==> unsigned(s, max)->0 <= max,
{
    lemma_numbers_read_back(n);
    let d = decimal(n);
    assert(is_digit(d[0]));
    assert((seq!['+'] + d).skip(1) =~= d);
    if exists|i: int| 0 < i < s.len() && !is_digit(#[trigger] s[i]) {
        let i = choose|i: int| 0 < i < s.len() && !is_digit(#[trigger] s[i]);
        assert(s.skip(1)[i - 1] == s[i]);
    }
}

/// White space beyond ASCII: the next line, the spaces that don't break, and those of the
/// general punctuation.
pub proof fn lemma_white_space_of_all_scripts(c: char)
    ensures
        c as u32 >= 128 ==> (is_white(c) <==> c as u32 == 0x85 || c as u32 == 0xa0 || c as u32
            == 0x1680 || 0x2000 <= c as u32 <= 0x200a || c as u32 == 0x2028 || c as u32 == 0x2029
            || c as u32 == 0x202f || c as u32 == 0x205f || c as u32 == 0x3000),
        is_ascii_white(c) <==> (c as u32) < 128 && is_white(c) && c as u32 != 0xb,
{
}

/// The letters and digits of ASCII.
pub proof fn lemma_letters_and_digits(c: char)
    ensures
        is_alnum(c) <==> '0' <= c <= '9' || 'a' <= c <= 'z' || 'A' <= c <= 'Z',
        is_digit(c) <==> '0' <= c <= '9',
{
}

/// A number in base sixteen ends in the digit that is left of it, behind the digits of its
/// sixteenth part, which has none where it is zero.
pub proof fn lemma_hexadecimal_digits(n: nat, d: nat)
    requires
        d < 16,
    ensures
        n > 0 ==> hex(16 * n + d) == hex(n) + hex(d),
        hex(d).len() == 1,
        d < 10 ==> hex(d)[0] as int == '0' as int + d,
        d >= 10 ==> hex(d)[0] as int == 'a' as int + d - 10,
{
    assert((16 * n + d) / 16 == n);
    assert((16 * n + d) % 16 == d);
    assert(hex(n).push(hex(d)[0]) =~= hex(n) + hex(d));
}

} // verus!
