//! Laws on text.
use vstd::prelude::*;

use crate::text::{
    decimal, digit, equals, find, find_is_first, is_white_space, join, lower, lower_char, not_blank,
    occurs_at, split, split_once, text_before, trim_end, trim_start, trimmed, unslashed,
    white_space,
};

verus! {

/// Whether two characters are the same letter of the ASCII alphabet, one of them a capital.
pub open spec fn capital_of(x: char, y: char) -> bool {
    'A' <= x <= 'Z' && y as u32 == x as u32 + 32
}

/// Whether two texts are the same but for the case of ASCII letters.
pub open spec fn same_but_for_case(a: Seq<char>, b: Seq<char>) -> bool {
    &&& a.len() == b.len()
    &&& forall|i: int|
        #![trigger a[i]]
        #![trigger b[i]]
        0 <= i < a.len() ==> a[i] == b[i] || capital_of(a[i], b[i]) || capital_of(b[i], a[i])
}

proof fn lower_char_is_small(c: char)
    ensures
        lower_char(c) == c || capital_of(c, lower_char(c)),
        'A' <= c <= 'Z' <==> capital_of(c, lower_char(c)),
        !('A' <= lower_char(c) <= 'Z'),
{
    if 'A' <= c <= 'Z' {
        let n = c as u8;
        assert(65 <= n <= 90);
        assert(n + 32 <= 122);
        assert(((n + 32) as u8) as char as u32 == c as u32 + 32);
    }
}

/// Texts have the same lower case just where they are the same but for case, and no lower case
/// holds a capital.
pub proof fn lower_case_forgets_case_alone(a: Seq<char>, b: Seq<char>)
    ensures
        lower(a) == lower(b) <==> same_but_for_case(a, b),
        same_but_for_case(a, lower(a)),
        forall|i: int| 0 <= i < a.len() ==> !('A' <= #[trigger] lower(a)[i] <= 'Z'),
{
    assert forall|i: int| 0 <= i < a.len() implies lower(a)[i] == lower_char(a[i]) by {}
    assert forall|i: int| 0 <= i < b.len() implies lower(b)[i] == lower_char(b[i]) by {}
    assert forall|i: int|
        #![trigger a[i]]
        #![trigger lower(a)[i]]
        0 <= i < a.len() implies (a[i] == lower(a)[i] || capital_of(a[i], lower(a)[i])) && !('A'
        <= lower(a)[i] <= 'Z') by {
        lower_char_is_small(a[i]);
    }
    if lower(a) == lower(b) {
        assert(a.len() == lower(a).len() && b.len() == lower(b).len());
        assert forall|i: int|
            #![trigger a[i]]
            #![trigger b[i]]
            0 <= i < a.len() implies a[i] == b[i] || capital_of(a[i], b[i]) || capital_of(
            b[i],
            a[i],
        ) by {
            assert(lower(a)[i] == lower(b)[i]);
            lower_char_is_small(a[i]);
            lower_char_is_small(b[i]);
        }
    }
    if same_but_for_case(a, b) {
        assert forall|i: int| 0 <= i < a.len() implies lower(a)[i] == lower(b)[i] by {
            assert(a[i] == b[i] || capital_of(a[i], b[i]) || capital_of(b[i], a[i]));
            lower_char_is_small(a[i]);
            lower_char_is_small(b[i]);
        }
        assert(lower(a) =~= lower(b));
    }
}

/// Among the ASCII characters the blank, the tab and the characters that end lines are white
/// space, and nothing else is; beyond them the spaces of Unicode are, by their code points.
pub proof fn blanks_are_white_space(c: char)
    ensures
        (c as u32) < 128 ==> (is_white_space(c) <==> c == ' ' || 9 <= c as u32 <= 13),
        (c as u32) >= 128 ==> (is_white_space(c) <==> {
            let n = c as u32;
            n == 0x85 || n == 0xa0 || n == 0x1680 || 0x2000 <= n <= 0x200a || 0x2028 <= n <= 0x2029
                || n == 0x202f || n == 0x205f || n == 0x3000
        }),
{
}

/// Whether `out` is the part of `s` that is left once what `p` says is taken from its ends, and
/// nothing else.
pub open spec fn stripped(s: Seq<char>, out: Seq<char>, p: spec_fn(char) -> bool) -> bool {
    exists|i: int, j: int| #[trigger]
        s.subrange(i, j) == out && 0 <= i <= j <= s.len() && (forall|k: int|
            0 <= k < i ==> p(#[trigger] s[k])) && (forall|k: int| j <= k < s.len() ==> p(
            #[trigger] s[k],
        )) && (i < j ==> !p(s[i]) && !p(s[j - 1]))
}

/// Whether `out` is `s` without the white space around it.
pub open spec fn bare(s: Seq<char>, out: Seq<char>) -> bool {
    stripped(s, out, |c: char| is_white_space(c))
}

/// Whether `out` is `s` without the slashes around it.
pub open spec fn slashless(s: Seq<char>, out: Seq<char>) -> bool {
    stripped(s, out, |c: char| c == '/')
}

proof fn start_is_stripped(s: Seq<char>, p: spec_fn(char) -> bool) -> (i: int)
    ensures
        0 <= i <= s.len(),
        trim_start(s, p) == s.skip(i),
        forall|k: int| 0 <= k < i ==> p(#[trigger] s[k]),
        i < s.len() ==> !p(s[i]),
    decreases s.len(),
{
    if s.len() > 0 && p(s[0]) {
        let t = s.drop_first();
        let i = start_is_stripped(t, p);
        assert(t.skip(i) =~= s.skip(i + 1));
        assert forall|k: int| 0 <= k < i + 1 implies p(#[trigger] s[k]) by {
            if k > 0 {
                assert(s[k] == t[k - 1]);
            }
        }
        i + 1
    } else {
        assert(s.skip(0) =~= s);
        0
    }
}

proof fn end_is_stripped(s: Seq<char>, p: spec_fn(char) -> bool) -> (j: int)
    ensures
        0 <= j <= s.len(),
        trim_end(s, p) == s.take(j),
        forall|k: int| j <= k < s.len() ==> p(#[trigger] s[k]),
        0 < j ==> !p(s[j - 1]),
    decreases s.len(),
{
    if s.len() > 0 && p(s.last()) {
        let t = s.drop_last();
        let j = end_is_stripped(t, p);
        assert(t.take(j) =~= s.take(j));
        assert forall|k: int| j <= k < s.len() implies p(#[trigger] s[k]) by {
            if k < t.len() {
                assert(s[k] == t[k]);
            }
        }
        j
    } else {
        assert(s.take(s.len() as int) =~= s);
        s.len() as int
    }
}

proof fn both_are_stripped(s: Seq<char>, p: spec_fn(char) -> bool)
    ensures
        stripped(s, trim_end(trim_start(s, p), p), p),
        trim_end(trim_start(s, p), p).len() == 0 <==> forall|k: int|
            0 <= k < s.len() ==> p(#[trigger] s[k]),
{
    let i = start_is_stripped(s, p);
    let t = s.skip(i);
    let j = end_is_stripped(t, p);
    assert(t.take(j) =~= s.subrange(i, i + j));
    assert forall|k: int| i + j <= k < s.len() implies p(#[trigger] s[k]) by {
        assert(s[k] == t[k - i]);
    }
    if j > 0 {
        assert(s[i] == t[0]);
        assert(s[i + j - 1] == t[j - 1]);
        assert(i < s.len());
    }
    assert(s.subrange(i, i + j) == trim_end(trim_start(s, p), p));
}

/// Trimming takes the white space at both ends, and nothing else: what is left is what stands
/// between, and nothing is left just where there was white space alone.
pub proof fn trimming_takes_white_space_alone(s: Seq<char>)
    ensures
        bare(s, trimmed(s)),
        trimmed(s).len() == 0 <==> forall|k: int|
            0 <= k < s.len() ==> is_white_space(#[trigger] s[k]),
{
    both_are_stripped(s, white_space());
    assert(white_space() =~= (|c: char| is_white_space(c)));
}

/// Of the slashes of a text those at both ends are taken, and nothing else.
pub proof fn unslashing_takes_slashes_alone(s: Seq<char>)
    ensures
        slashless(s, unslashed(s)),
{
    both_are_stripped(s, equals('/'));
    assert(equals('/') =~= (|c: char| c == '/'));
}

/// Of an address without the slashes at its end nothing else is missing.
pub proof fn trailing_slashes_go(s: Seq<char>)
    ensures
        trim_end(s, equals('/')).len() <= s.len(),
        trim_end(s, equals('/')) == s.take(trim_end(s, equals('/')).len() as int),
        forall|k: int|
            trim_end(s, equals('/')).len() <= k < s.len() ==> #[trigger] s[k] == '/',
        trim_end(s, equals('/')).len() > 0 ==> trim_end(s, equals('/')).last() != '/',
{
    let j = end_is_stripped(s, equals('/'));
    assert(s.take(j).len() == j);
}

/// A text counts as blank just where it holds white space alone; else it goes without the white
/// space around it.
pub proof fn blank_texts_count_as_none(text: Seq<char>)
    ensures
        not_blank(Some(text)) is None <==> forall|k: int|
            0 <= k < text.len() ==> is_white_space(#[trigger] text[k]),
        not_blank(Some(text)) matches Some(rest) ==> rest.len() > 0 && bare(text, rest),
        not_blank(None) is None,
{
    trimming_takes_white_space_alone(text);
}

/// A pattern stands at a position just where its characters do.
pub proof fn patterns_stand_letter_by_letter(s: Seq<char>, pat: Seq<char>, i: int)
    ensures
        occurs_at(s, pat, i) <==> 0 <= i && i + pat.len() <= s.len() && forall|k: int|
            0 <= k < pat.len() ==> s[i + k] == #[trigger] pat[k],
{
    if 0 <= i && i + pat.len() <= s.len() {
        let part = s.subrange(i, i + pat.len());
        if forall|k: int| 0 <= k < pat.len() ==> s[i + k] == #[trigger] pat[k] {
            assert(part =~= pat);
        }
        if part == pat {
            assert forall|k: int| 0 <= k < pat.len() implies s[i + k] == #[trigger] pat[k] by {
                assert(part[k] == s[i + k]);
            }
        }
    }
}

/// A text is parted at the first place where the pattern stands: before it the pattern stands
/// nowhere, and the two parts with the pattern between them are the text.
pub proof fn texts_are_parted_once(s: Seq<char>, pat: Seq<char>)
    ensures
        match split_once(s, pat) {
            Some((a, b)) => s == a + pat + b && forall|j: int|
                0 <= j < a.len() ==> !occurs_at(s, pat, j),
            None => forall|j: int| !occurs_at(s, pat, j),
        },
{
    find_is_first(s, pat);
    if let Some(i) = find(s, pat) {
        assert(s =~= s.take(i) + s.subrange(i, i + pat.len()) + s.skip(i + pat.len()));
        assert(s.take(i).len() == i);
    }
}

/// Pieces put together with a separator: one stands as it is, and two lists of them are put
/// together with the separator between.
pub proof fn joining_lists(a: Seq<Seq<char>>, b: Seq<Seq<char>>, x: Seq<char>, sep: Seq<char>)
    ensures
        join(Seq::empty(), sep) == Seq::<char>::empty(),
        join(seq![x], sep) == x,
        a.len() > 0 && b.len() > 0 ==> join(a + b, sep) == join(a, sep) + sep + join(b, sep),
    decreases b.len(),
{
    if a.len() > 0 && b.len() > 0 {
        let all = a + b;
        if b.len() == 1 {
            assert(all.drop_last() =~= a);
            assert(all.last() == b[0]);
        } else {
            joining_lists(a, b.drop_last(), x, sep);
            assert(all.drop_last() =~= a + b.drop_last());
            assert(all.last() == b.last());
            assert(join(all, sep) =~= join(a, sep) + sep + join(b, sep));
        }
    }
}

proof fn pieces_are_there(s: Seq<char>, sep: char)
    ensures
        split(s, sep).len() > 0,
        forall|i: int, k: int|
            0 <= i < split(s, sep).len() && 0 <= k < split(s, sep)[i].len() ==> #[trigger] split(
                s,
                sep,
            )[i][k] != sep,
        join(split(s, sep), seq![sep]) == s,
    decreases s.len(),
{
    let all = split(s, sep);
    if s.len() == 0 {
        assert(join(all, seq![sep]) =~= s);
    } else {
        let t = s.drop_last();
        let head = split(t, sep);
        pieces_are_there(t, sep);
        if s.last() == sep {
            assert forall|i: int, k: int|
                0 <= i < all.len() && 0 <= k < all[i].len() implies #[trigger] all[i][k] != sep by {
                if i < head.len() {
                    assert(all[i] == head[i]);
                    assert(head[i][k] != sep);
                }
            }
            assert(all.drop_last() =~= head);
            assert(join(all, seq![sep]) =~= s);
        } else {
            let x = head.last().push(s.last());
            assert forall|i: int, k: int|
                0 <= i < all.len() && 0 <= k < all[i].len() implies #[trigger] all[i][k] != sep by {
                if i < head.len() - 1 {
                    assert(all[i] == head[i]);
                    assert(head[i][k] != sep);
                } else if k < head.last().len() {
                    assert(head[i][k] != sep);
                }
            }
            if head.len() == 1 {
                assert(join(all, seq![sep]) =~= s);
            } else {
                let front = head.drop_last();
                assert(all.drop_last() =~= front);
                assert(all.last() == x);
                assert(join(head, seq![sep]) == join(front, seq![sep]) + seq![sep] + head.last());
                assert(join(all, seq![sep]) == join(front, seq![sep]) + seq![sep] + x);
                assert(join(all, seq![sep]) =~= join(head, seq![sep]).push(s.last()));
                assert(t.push(s.last()) =~= s);
            }
        }
    }
}

/// The pieces of a text hold no separator, and put together with separators they are the text.
pub proof fn pieces_make_up_the_text(s: Seq<char>, sep: char)
    ensures
        split(s, sep).len() > 0,
        forall|i: int, k: int|
            0 <= i < split(s, sep).len() && 0 <= k < split(s, sep)[i].len() ==> #[trigger] split(
                s,
                sep,
            )[i][k] != sep,
        join(split(s, sep), seq![sep]) == s,
{
    pieces_are_there(s, sep);
}

/// Two texts with a separator between them have the pieces of the one and behind them those of the
/// other; a text without a separator is one piece.
pub proof fn separators_part_the_pieces(x: Seq<char>, y: Seq<char>, sep: char)
    ensures
        split(x + seq![sep] + y, sep) == split(x, sep) + split(y, sep),
        (forall|k: int| 0 <= k < x.len() ==> #[trigger] x[k] != sep) ==> split(x, sep) == seq![x],
    decreases y.len(),
{
    let s = x + seq![sep] + y;
    pieces_are_there(x, sep);
    if y.len() == 0 {
        assert(s.drop_last() =~= x);
        assert(s.last() == sep);
        assert(split(s, sep) =~= split(x, sep) + split(y, sep));
    } else {
        let t = y.drop_last();
        separators_part_the_pieces(x, t, sep);
        pieces_are_there(t, sep);
        assert(s.drop_last() =~= x + seq![sep] + t);
        assert(s.last() == y.last());
        assert(split(s, sep) =~= split(x, sep) + split(y, sep));
    }
    if forall|k: int| 0 <= k < x.len() ==> #[trigger] x[k] != sep {
        one_piece(x, sep);
    }
}

proof fn one_piece(x: Seq<char>, sep: char)
    requires
        forall|k: int| 0 <= k < x.len() ==> #[trigger] x[k] != sep,
    ensures
        split(x, sep) == seq![x],
    decreases x.len(),
{
    if x.len() > 0 {
        let t = x.drop_last();
        assert forall|k: int| 0 <= k < t.len() implies #[trigger] t[k] != sep by {
            assert(t[k] == x[k]);
        }
        one_piece(t, sep);
        assert(x.last() == x[x.len() - 1]);
        assert(t.push(x.last()) =~= x);
        assert(split(x, sep) =~= seq![x]);
    } else {
        assert(x =~= Seq::empty());
    }
}

/// The number that decimal digits stand for.
pub open spec fn value_of(digits: Seq<char>) -> nat
    decreases digits.len(),
{
    if digits.len() == 0 {
        0
    } else {
        10 * value_of(digits.drop_last()) + (digits.last() as nat - 48) as nat
    }
}

/// The decimal notation of a number is made of digits that stand for it, without a needless zero
/// in front.
pub proof fn digits_stand_for_their_number(n: nat)
    ensures
        value_of(decimal(n)) == n,
        decimal(n).len() > 0,
        forall|i: int| 0 <= i < decimal(n).len() ==> '0' <= #[trigger] decimal(n)[i] <= '9',
        decimal(n).len() > 1 ==> decimal(n)[0] != '0',
    decreases n,
{
    let d = digit(n % 10);
    assert(d as nat == 48 + n % 10);
    if n < 10 {
        assert(decimal(n).drop_last() =~= Seq::empty());
        assert(value_of(decimal(n).drop_last()) == 0);
    } else {
        let head = decimal(n / 10);
        digits_stand_for_their_number(n / 10);
        assert(decimal(n).drop_last() =~= head);
        assert forall|i: int| 0 <= i < decimal(n).len() implies '0' <= #[trigger] decimal(n)[i]
            <= '9' by {
            if i < head.len() {
                assert(decimal(n)[i] == head[i]);
            }
        }
        if head.len() == 1 {
            assert(value_of(head) == n / 10);
            assert(head.drop_last() =~= Seq::empty());
            assert(value_of(head.drop_last()) == 0);
            assert(head.last() == head[0]);
        }
        assert(decimal(n)[0] == head[0]);
    }
}

/// A text stands before another where the first character in which they differ is the smaller one,
/// or where it is the other's beginning.
pub proof fn the_first_difference_decides(a: Seq<char>, b: Seq<char>)
    ensures
        text_before(a, b) <==> exists|k: int|
            0 <= k <= a.len() && k < b.len() && #[trigger] a.take(k) == b.take(k) && (k == a.len()
                || a[k] < b[k]),
    decreases a.len(),
{
    if b.len() > 0 && a.len() > 0 && a[0] == b[0] {
        let s = a.drop_first();
        let t = b.drop_first();
        the_first_difference_decides(s, t);
        if text_before(s, t) {
            let k = choose|k: int|
                0 <= k <= s.len() && k < t.len() && #[trigger] s.take(k) == t.take(k) && (k
                    == s.len() || s[k] < t[k]);
            assert(a.take(k + 1) =~= seq![a[0]] + s.take(k));
            assert(b.take(k + 1) =~= seq![b[0]] + t.take(k));
            assert(a.take(k + 1) == b.take(k + 1));
        }
        if exists|k: int|
            0 <= k <= a.len() && k < b.len() && #[trigger] a.take(k) == b.take(k) && (k == a.len()
                || a[k] < b[k]) {
            let k = choose|k: int|
                0 <= k <= a.len() && k < b.len() && #[trigger] a.take(k) == b.take(k) && (k
                    == a.len() || a[k] < b[k]);
            assert(k > 0);
            assert(s.take(k - 1) =~= a.take(k).drop_first());
            assert(t.take(k - 1) =~= b.take(k).drop_first());
            assert(s.take(k - 1) == t.take(k - 1));
        }
    } else if b.len() > 0 {
        assert(a.take(0) =~= b.take(0));
        assert forall|k: int|
            0 < k <= a.len() && k < b.len() implies #[trigger] a.take(k) != b.take(k) by {
            assert(a.take(k)[0] == a[0] && b.take(k)[0] == b[0]);
        }
    }
}

} // verus!
