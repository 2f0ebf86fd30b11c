//! Text as sequences of characters: trimming, splitting, joining, comparing.
use vstd::prelude::*;
use vstd::string::*;

verus! {

broadcast use vstd::string::group_string_axioms;

/// The views of a sequence of strings.
pub open spec fn texts(strings: Seq<String>) -> Seq<Seq<char>> {
    views(strings)
}

/// The views of the elements of a sequence.
pub open spec fn views<T: View>(s: Seq<T>) -> Seq<T::V> {
    s.map_values(|x: T| x@)
}

/// The view of an optional string.
pub open spec fn opt_text(s: Option<String>) -> Option<Seq<char>> {
    match s {
        Some(s) => Some(s@),
        None => None,
    }
}

/// The view of an optional borrowed string.
pub open spec fn opt_str(s: Option<&str>) -> Option<Seq<char>> {
    match s {
        Some(s) => Some(s@),
        None => None,
    }
}

/// `String::push` appends one character.
pub assume_specification[ String::push ](s: &mut String, c: char)
    ensures
        final(s)@ == old(s)@.push(c),
;

/// The characters of `s`, in order.
pub fn chars_of(s: &str) -> (res: Vec<char>)
    ensures
        res@ == s@,
{
    let mut res: Vec<char> = Vec::new();
    for c in it: s.chars()
        invariant
            res@ == s@.take(it.index() as int),
            it.seq() == s@,
    {
        res.push(c);
        assert(s@.take(it.index() + 1) == s@.take(it.index() as int).push(s@[it.index() as int]));
    }
    assert(s@.take(s@.len() as int) == s@);
    res
}

/// Whether two strings hold the same characters.
pub fn same(a: &str, b: &str) -> (res: bool)
    ensures
        res == (a@ == b@),
{
    let x = chars_of(a);
    let y = chars_of(b);
    if x.len() != y.len() {
        return false;
    }
    let mut i: usize = 0;
    while i < x.len()
        invariant
            i <= x.len(),
            x@ == a@,
            y@ == b@,
            x.len() == y.len(),
            forall|k: int| 0 <= k < i ==> x@[k] == y@[k],
        decreases x.len() - i,
    {
        if x[i] != y[i] {
            return false;
        }
        i = i + 1;
    }
    assert(x@ =~= y@);
    true
}

/// Whether `c` has the Unicode property White_Space.
pub open spec fn is_white_space(c: char) -> bool {
    ||| '\u{9}' <= c <= '\u{d}'
    ||| c == ' '
    ||| c == '\u{85}'
    ||| c == '\u{a0}'
    ||| c == '\u{1680}'
    ||| '\u{2000}' <= c <= '\u{200a}'
    ||| c == '\u{2028}'
    ||| c == '\u{2029}'
    ||| c == '\u{202f}'
    ||| c == '\u{205f}'
    ||| c == '\u{3000}'
}

/// White space as a predicate value.
pub open spec fn white_space() -> spec_fn(char) -> bool {
    |c: char| is_white_space(c)
}

/// "Is `x`" as a predicate value.
pub open spec fn equals(x: char) -> spec_fn(char) -> bool {
    |c: char| c == x
}

/// `s` without its longest prefix of characters that meet `p`.
pub open spec fn trim_start(s: Seq<char>, p: spec_fn(char) -> bool) -> Seq<char>
    decreases s.len(),
{
    if s.len() > 0 && p(s[0]) {
        trim_start(s.drop_first(), p)
    } else {
        s
    }
}

/// `s` without its longest suffix of characters that meet `p`.
pub open spec fn trim_end(s: Seq<char>, p: spec_fn(char) -> bool) -> Seq<char>
    decreases s.len(),
{
    if s.len() > 0 && p(s.last()) {
        trim_end(s.drop_last(), p)
    } else {
        s
    }
}

/// `s` without the white space around it.
pub open spec fn trimmed(s: Seq<char>) -> Seq<char> {
    trim_end(trim_start(s, white_space()), white_space())
}

/// `s` without the slashes around it.
pub open spec fn unslashed(s: Seq<char>) -> Seq<char> {
    trim_end(trim_start(s, equals('/')), equals('/'))
}

/// Whether `c` has the Unicode property White_Space.
pub fn white(c: char) -> (res: bool)
    ensures
        res == is_white_space(c),
{
    let n = c as u32;
    (0x9 <= n && n <= 0xd) || n == 0x20 || n == 0x85 || n == 0xa0 || n == 0x1680 || (0x2000 <= n
        && n <= 0x200a) || n == 0x2028 || n == 0x2029 || n == 0x202f || n == 0x205f || n == 0x3000
}

fn trim_start_by<'a>(
    s: &'a str,
    f: impl Fn(char) -> bool,
    Ghost(p): Ghost<spec_fn(char) -> bool>,
) -> (res: &'a str)
    requires
        forall|c: char| f.requires((c,)),
        forall|c: char, b: bool| f.ensures((c,), b) ==> b == p(c),
    ensures
        res@ == trim_start(s@, p),
{
    let v = chars_of(s);
    let mut i: usize = 0;
    assert(s@.skip(0) == s@);
    while i < v.len()
        invariant_except_break
            trim_start(s@.skip(i as int), p) == trim_start(s@, p),
        invariant
            i <= v.len(),
            v@ == s@,
            forall|c: char| f.requires((c,)),
            forall|c: char, b: bool| f.ensures((c,), b) ==> b == p(c),
        ensures
            s@.skip(i as int) == trim_start(s@, p),
        decreases v.len() - i,
    {
        if !f(v[i]) {
            break;
        }
        assert(s@.skip(i as int).drop_first() == s@.skip(i + 1));
        i = i + 1;
    }
    assert(s@.subrange(i as int, s@.len() as int) == s@.skip(i as int));
    s.substring_char(i, v.len())
}

fn trim_end_by<'a>(
    s: &'a str,
    f: impl Fn(char) -> bool,
    Ghost(p): Ghost<spec_fn(char) -> bool>,
) -> (res: &'a str)
    requires
        forall|c: char| f.requires((c,)),
        forall|c: char, b: bool| f.ensures((c,), b) ==> b == p(c),
    ensures
        res@ == trim_end(s@, p),
{
    let v = chars_of(s);
    let mut n: usize = v.len();
    assert(s@.take(n as int) == s@);
    while n > 0
        invariant_except_break
            trim_end(s@.take(n as int), p) == trim_end(s@, p),
        invariant
            n <= v.len(),
            v@ == s@,
            forall|c: char| f.requires((c,)),
            forall|c: char, b: bool| f.ensures((c,), b) ==> b == p(c),
        ensures
            s@.take(n as int) == trim_end(s@, p),
        decreases n,
    {
        if !f(v[n - 1]) {
            break;
        }
        assert(s@.take(n as int).drop_last() == s@.take(n - 1));
        n = n - 1;
    }
    assert(s@.subrange(0, n as int) == s@.take(n as int));
    s.substring_char(0, n)
}

/// `s` without the white space around it.
pub fn trim(s: &str) -> (res: &str)
    ensures
        res@ == trimmed(s@),
{
    let f = |c: char| -> (b: bool)
        ensures
            b == is_white_space(c),
        { white(c) };
    let t = trim_start_by(s, f, Ghost(white_space()));
    trim_end_by(t, f, Ghost(white_space()))
}

/// A text that is not blank, without the white space around it.
pub open spec fn not_blank(text: Option<Seq<char>>) -> Option<Seq<char>> {
    match text {
        Some(text) => if trimmed(text).len() == 0 {
            None
        } else {
            Some(trimmed(text))
        },
        None => None,
    }
}

/// A text that is not blank, without the white space around it.
pub fn unless_blank(text: Option<&str>) -> (res: Option<String>)
    ensures
        opt_text(res) == not_blank(opt_str(text)),
{
    match text {
        Some(text) => {
            let text = trim(text);
            if text.is_empty() {
                None
            } else {
                Some(text.to_owned())
            }
        },
        None => None,
    }
}

/// `s` without the slashes at its end.
pub fn trim_end_slashes(s: &str) -> (res: &str)
    ensures
        res@ == trim_end(s@, equals('/')),
{
    let f = |c: char| -> (b: bool)
        ensures
            b == (c == '/'),
        { c == '/' };
    trim_end_by(s, f, Ghost(equals('/')))
}

/// `s` without the slashes around it.
pub fn trim_slashes(s: &str) -> (res: &str)
    ensures
        res@ == unslashed(s@),
{
    let f = |c: char| -> (b: bool)
        ensures
            b == (c == '/'),
        { c == '/' };
    let t = trim_start_by(s, f, Ghost(equals('/')));
    trim_end_by(t, f, Ghost(equals('/')))
}

/// `c`, in lower case where it is an ASCII letter.
pub open spec fn lower_char(c: char) -> char {
    if 'A' <= c <= 'Z' {
        (c as u8 + 32) as char
    } else {
        c
    }
}

/// `s` with its ASCII letters in lower case.
pub open spec fn lower(s: Seq<char>) -> Seq<char> {
    s.map_values(|c: char| lower_char(c))
}

fn lower_one(c: char) -> (res: char)
    ensures
        res == lower_char(c),
{
    if 'A' <= c && c <= 'Z' {
        (c as u8 + 32) as char
    } else {
        c
    }
}

/// `s` with its ASCII letters in lower case.
pub fn to_lower(s: &str) -> (res: String)
    ensures
        res@ == lower(s@),
{
    let v = chars_of(s);
    let mut res = String::new();
    let mut i: usize = 0;
    while i < v.len()
        invariant
            i <= v.len(),
            v@ == s@,
            res@ == lower(s@).take(i as int),
        decreases v.len() - i,
    {
        res.push(lower_one(v[i]));
        assert(lower(s@).take(i + 1) == lower(s@).take(i as int).push(lower(s@)[i as int]));
        i = i + 1;
    }
    assert(lower(s@).take(i as int) == lower(s@));
    res
}

/// Whether two strings are the same but for the case of ASCII letters.
pub fn same_ignoring_case(a: &str, b: &str) -> (res: bool)
    ensures
        res == (lower(a@) == lower(b@)),
{
    let x = to_lower(a);
    let y = to_lower(b);
    same(x.as_str(), y.as_str())
}

/// Whether `pat` stands in `s` at position `i`.
pub open spec fn occurs_at(s: Seq<char>, pat: Seq<char>, i: int) -> bool {
    &&& 0 <= i
    &&& i + pat.len() <= s.len()
    &&& s.subrange(i, i + pat.len()) == pat
}

/// The first position at which `pat` stands in `s`.
pub open spec fn find(s: Seq<char>, pat: Seq<char>) -> Option<int>
    decreases s.len(),
{
    if occurs_at(s, pat, 0) {
        Some(0)
    } else if s.len() == 0 {
        None
    } else {
        match find(s.drop_first(), pat) {
            Some(i) => Some(i + 1),
            None => None,
        }
    }
}

/// `s` before and after the first `pat` in it.
pub open spec fn split_once(s: Seq<char>, pat: Seq<char>) -> Option<(Seq<char>, Seq<char>)> {
    match find(s, pat) {
        Some(i) => Some((s.take(i), s.skip(i + pat.len()))),
        None => None,
    }
}

/// `find` gives the least position at which the pattern stands, and none where it stands nowhere.
pub proof fn find_is_first(s: Seq<char>, pat: Seq<char>)
    ensures
        match find(s, pat) {
            Some(i) => occurs_at(s, pat, i) && forall|j: int| 0 <= j < i ==> !occurs_at(s, pat, j),
            None => forall|j: int| !occurs_at(s, pat, j),
        },
    decreases s.len(),
{
    if !occurs_at(s, pat, 0) && s.len() > 0 {
        let t = s.drop_first();
        find_is_first(t, pat);
        assert forall|j: int| 0 < j && occurs_at(s, pat, j) implies occurs_at(t, pat, j - 1) by {
            assert(t.subrange(j - 1, j - 1 + pat.len()) == s.subrange(j, j + pat.len()));
        }
        assert forall|j: int| occurs_at(t, pat, j) implies occurs_at(s, pat, j + 1) by {
            assert(t.subrange(j, j + pat.len()) == s.subrange(j + 1, j + 1 + pat.len()));
        }
        match find(t, pat) {
            Some(i) => {
                assert forall|j: int| 0 <= j < i + 1 implies !occurs_at(s, pat, j) by {
                    if j > 0 && occurs_at(s, pat, j) {
                        assert(occurs_at(t, pat, j - 1));
                    }
                }
            },
            None => {
                assert forall|j: int| !occurs_at(s, pat, j) by {
                    if j > 0 && occurs_at(s, pat, j) {
                        assert(occurs_at(t, pat, j - 1));
                    }
                }
            },
        }
    } else if s.len() == 0 && !occurs_at(s, pat, 0) {
        assert forall|j: int| !occurs_at(s, pat, j) by {
            if occurs_at(s, pat, j) {
                assert(j == 0);
            }
        }
    }
}

fn starts_at(s: &Vec<char>, pat: &Vec<char>, i: usize) -> (res: bool)
    requires
        i <= s.len(),
    ensures
        res == occurs_at(s@, pat@, i as int),
{
    if s.len() - i < pat.len() {
        return false;
    }
    let mut k: usize = 0;
    while k < pat.len()
        invariant
            k <= pat.len(),
            i + pat.len() <= s.len(),
            forall|j: int| 0 <= j < k ==> s@[i + j] == pat@[j],
        decreases pat.len() - k,
    {
        if s[i + k] != pat[k] {
            assert(s@.subrange(i as int, i + pat.len())[k as int] != pat@[k as int]);
            return false;
        }
        k = k + 1;
    }
    assert(s@.subrange(i as int, i + pat.len()) =~= pat@);
    true
}

/// `s` before and after the first `pat` in it.
pub fn split_at_first<'a>(s: &'a str, pat: &str) -> (res: Option<(&'a str, &'a str)>)
    ensures
        match res {
            Some((a, b)) => split_once(s@, pat@) == Some((a@, b@)),
            None => split_once(s@, pat@) is None,
        },
{
    let v = chars_of(s);
    let p = chars_of(pat);
    let mut i: usize = 0;
    proof {
        find_is_first(s@, pat@);
    }
    loop
        invariant
            i <= v.len(),
            v@ == s@,
            p@ == pat@,
            forall|j: int| 0 <= j < i ==> !occurs_at(s@, pat@, j),
            match find(s@, pat@) {
                Some(i) => occurs_at(s@, pat@, i) && forall|j: int|
                    0 <= j < i ==> !occurs_at(s@, pat@, j),
                None => forall|j: int| !occurs_at(s@, pat@, j),
            },
        decreases v.len() - i,
    {
        if starts_at(&v, &p, i) {
            assert(find(s@, pat@) == Some(i as int));
            let a = s.substring_char(0, i);
            let b = s.substring_char(i + p.len(), v.len());
            assert(s@.subrange(0, i as int) == s@.take(i as int));
            assert(s@.subrange(i + p.len(), s@.len() as int) == s@.skip(i + pat@.len()));
            return Some((a, b));
        }
        if i == v.len() {
            return None;
        }
        i = i + 1;
    }
}

/// The pieces of `s` between the separators `sep`; one piece where there is none.
pub open spec fn split(s: Seq<char>, sep: char) -> Seq<Seq<char>>
    decreases s.len(),
{
    if s.len() == 0 {
        seq![Seq::empty()]
    } else {
        let head = split(s.drop_last(), sep);
        if s.last() == sep {
            head.push(Seq::empty())
        } else {
            head.update(head.len() - 1, head.last().push(s.last()))
        }
    }
}

/// The pieces of `s` between the separators `sep`; one piece where there is none.
pub fn split_on(s: &str, sep: char) -> (res: Vec<String>)
    ensures
        texts(res@) == split(s@, sep),
{
    let v = chars_of(s);
    let mut done: Vec<String> = Vec::new();
    let mut open = String::new();
    let mut i: usize = 0;
    assert(s@.take(0) == Seq::<char>::empty());
    assert(texts(done@).push(open@) == seq![Seq::<char>::empty()]);
    while i < v.len()
        invariant
            i <= v.len(),
            v@ == s@,
            texts(done@).push(open@) == split(s@.take(i as int), sep),
        decreases v.len() - i,
    {
        let ghost before = texts(done@).push(open@);
        assert(s@.take(i + 1).drop_last() == s@.take(i as int));
        assert(s@.take(i + 1).last() == v@[i as int]);
        if v[i] == sep {
            done.push(open);
            open = String::new();
            assert(texts(done@).push(open@) == before.push(Seq::empty()));
        } else {
            open.push(v[i]);
            assert(texts(done@).push(open@) == before.update(
                before.len() - 1,
                before.last().push(v@[i as int]),
            ));
        }
        i = i + 1;
    }
    assert(s@.take(i as int) == s@);
    let ghost all = texts(done@).push(open@);
    done.push(open);
    assert(texts(done@) == all);
    done
}

/// `parts` one after the other, `sep` between each two.
pub open spec fn join(parts: Seq<Seq<char>>, sep: Seq<char>) -> Seq<char>
    decreases parts.len(),
{
    if parts.len() == 0 {
        Seq::empty()
    } else if parts.len() == 1 {
        parts[0]
    } else {
        join(parts.drop_last(), sep) + sep + parts.last()
    }
}

/// `parts` one after the other, `sep` between each two.
pub fn join_all(parts: &Vec<String>, sep: &str) -> (res: String)
    ensures
        res@ == join(texts(parts@), sep@),
{
    let mut res = String::new();
    let mut i: usize = 0;
    assert(texts(parts@).take(0) == Seq::<Seq<char>>::empty());
    while i < parts.len()
        invariant
            i <= parts.len(),
            res@ == join(texts(parts@).take(i as int), sep@),
        decreases parts.len() - i,
    {
        let ghost next = texts(parts@).take(i + 1);
        assert(next.drop_last() == texts(parts@).take(i as int));
        assert(next.last() == parts@[i as int]@);
        if i > 0 {
            res.append(sep);
        }
        res.append(parts[i].as_str());
        assert(res@ == join(next, sep@));
        i = i + 1;
    }
    assert(texts(parts@).take(i as int) == texts(parts@));
    res
}

/// The decimal digit of `n`.
pub open spec fn digit(n: nat) -> char {
    ('0' as u8 + n) as char
}

/// `n` in decimal notation.
pub open spec fn decimal(n: nat) -> Seq<char>
    decreases n,
{
    if n < 10 {
        seq![digit(n)]
    } else {
        decimal(n / 10).push(digit(n % 10))
    }
}

/// Different numbers are written differently.
pub proof fn decimal_is_injective(m: nat, n: nat)
    requires
        decimal(m) == decimal(n),
    ensures
        m == n,
    decreases m,
{
    decimal_is_not_empty(m / 10);
    decimal_is_not_empty(n / 10);
    assert(decimal(m).last() == digit(m % 10));
    assert(decimal(n).last() == digit(n % 10));
    if m >= 10 && n >= 10 {
        assert(decimal(m).drop_last() =~= decimal(m / 10));
        assert(decimal(n).drop_last() =~= decimal(n / 10));
        decimal_is_injective(m / 10, n / 10);
    }
}

proof fn decimal_is_not_empty(n: nat)
    ensures
        decimal(n).len() > 0,
    decreases n,
{
    if n >= 10 {
        decimal_is_not_empty(n / 10);
    }
}

/// `n` in decimal notation.
pub fn decimal_of(n: u64) -> (res: String)
    ensures
        res@ == decimal(n as nat),
    decreases n,
{
    if n < 10 {
        let mut res = String::new();
        res.push((48u8 + n as u8) as char);
        assert(res@ == seq![digit(n as nat)]);
        res
    } else {
        let mut res = decimal_of(n / 10);
        res.push((48u8 + (n % 10) as u8) as char);
        res
    }
}

/// Whether `a` stands before `b` in the order of code points, character by character.
pub open spec fn text_before(a: Seq<char>, b: Seq<char>) -> bool
    decreases a.len(),
{
    if b.len() == 0 {
        false
    } else if a.len() == 0 {
        true
    } else if a[0] == b[0] {
        text_before(a.drop_first(), b.drop_first())
    } else {
        a[0] < b[0]
    }
}

/// No text stands before itself.
pub proof fn text_before_irreflexive(a: Seq<char>)
    ensures
        !text_before(a, a),
    decreases a.len(),
{
    if a.len() > 0 {
        text_before_irreflexive(a.drop_first());
    }
}

/// The order of texts is transitive.
pub proof fn text_before_transitive(a: Seq<char>, b: Seq<char>, c: Seq<char>)
    requires
        text_before(a, b),
        text_before(b, c),
    ensures
        text_before(a, c),
    decreases a.len(),
{
    if a.len() > 0 && a[0] == b[0] && b[0] == c[0] {
        text_before_transitive(a.drop_first(), b.drop_first(), c.drop_first());
    }
}

/// Of two different texts one stands before the other.
pub proof fn text_before_total(a: Seq<char>, b: Seq<char>)
    ensures
        text_before(a, b) || a == b || text_before(b, a),
    decreases a.len(),
{
    if a.len() > 0 && b.len() > 0 && a[0] == b[0] {
        text_before_total(a.drop_first(), b.drop_first());
        if a.drop_first() == b.drop_first() {
            assert(a =~= seq![a[0]] + a.drop_first());
            assert(b =~= seq![b[0]] + b.drop_first());
        }
    } else if a.len() == 0 && b.len() == 0 {
        assert(a =~= b);
    }
}

/// Whether `a` stands before `b` in the order of code points.
pub fn less(a: &str, b: &str) -> (res: bool)
    ensures
        res == text_before(a@, b@),
{
    let x = chars_of(a);
    let y = chars_of(b);
    let mut i: usize = 0;
    assert(a@.skip(0) == a@);
    assert(b@.skip(0) == b@);
    loop
        invariant
            i <= x.len(),
            i <= y.len(),
            x@ == a@,
            y@ == b@,
            text_before(a@.skip(i as int), b@.skip(i as int)) == text_before(a@, b@),
        decreases x.len() - i,
    {
        if i == y.len() {
            return false;
        }
        if i == x.len() {
            return true;
        }
        if x[i] != y[i] {
            return x[i] < y[i];
        }
        assert(a@.skip(i as int).drop_first() == a@.skip(i + 1));
        assert(b@.skip(i as int).drop_first() == b@.skip(i + 1));
        i = i + 1;
    }
}

} // verus!
