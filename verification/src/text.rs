//! Character-level string operations with their mathematical meaning.
//!
//! Strings are viewed as sequences of Unicode scalar values (`Seq<char>`).
use vstd::prelude::*;

verus! {

/// Unicode `White_Space`, the class that `str::trim` and `char::is_whitespace` use.
pub open spec fn is_ws(c: char) -> bool {
    ||| '\u{9}' <= c <= '\u{d}'
    ||| c == ' '
    ||| c == '\u{85}'
    ||| c == '\u{a0}'
    ||| c == '\u{1680}'
    ||| '\u{2000}' <= c <= '\u{200a}'
    ||| c == '\u{2028}'
    ||| c == '\u{2029}'
    ||| c == '\u{202f}'
    ||| c == '\u{205f}'
    ||| c == '\u{3000}'
}

/// A set of characters that a trim removes.
#[derive(Clone, Copy)]
pub enum CharClass {
    Whitespace,
    Only(char),
}

pub open spec fn in_class(cls: CharClass, c: char) -> bool {
    match cls {
        CharClass::Whitespace => is_ws(c),
        CharClass::Only(d) => c == d,
    }
}

/// `s` without its leading characters of class `cls`.
pub open spec fn strip_front(s: Seq<char>, cls: CharClass) -> Seq<char>
    decreases s.len(),
{
    if s.len() > 0 && in_class(cls, s[0]) {
        strip_front(s.drop_first(), cls)
    } else {
        s
    }
}

/// `s` without its trailing characters of class `cls`.
pub open spec fn strip_back(s: Seq<char>, cls: CharClass) -> Seq<char>
    decreases s.len(),
{
    if s.len() > 0 && in_class(cls, s.last()) {
        strip_back(s.drop_last(), cls)
    } else {
        s
    }
}

/// `s` without leading and trailing characters of class `cls` (`str::trim_matches`).
pub open spec fn trim_class(s: Seq<char>, cls: CharClass) -> Seq<char> {
    strip_back(strip_front(s, cls), cls)
}

/// `str::trim`.
pub open spec fn trim_ws(s: Seq<char>) -> Seq<char> {
    trim_class(s, CharClass::Whitespace)
}

/// The text is empty or whitespace only.
pub open spec fn is_blank(s: Seq<char>) -> bool {
    trim_ws(s).len() == 0
}

pub open spec fn is_prefix(p: Seq<char>, s: Seq<char>) -> bool {
    p.len() <= s.len() && s.subrange(0, p.len() as int) == p
}

pub open spec fn is_suffix(p: Seq<char>, s: Seq<char>) -> bool {
    p.len() <= s.len() && s.subrange(s.len() - p.len(), s.len() as int) == p
}

/// `s` with every leading copy of `p` removed (`str::trim_start_matches` with a string pattern).
pub open spec fn strip_prefix_all(s: Seq<char>, p: Seq<char>) -> Seq<char>
    decreases s.len(),
{
    if p.len() > 0 && is_prefix(p, s) {
        strip_prefix_all(s.subrange(p.len() as int, s.len() as int), p)
    } else {
        s
    }
}

pub open spec fn is_ascii_upper(c: char) -> bool {
    'A' <= c && c <= 'Z'
}

pub open spec fn is_ascii_lower(c: char) -> bool {
    'a' <= c && c <= 'z'
}

pub open spec fn is_ascii_digit(c: char) -> bool {
    '0' <= c && c <= '9'
}

pub open spec fn is_ascii_alphanumeric(c: char) -> bool {
    is_ascii_upper(c) || is_ascii_lower(c) || is_ascii_digit(c)
}

/// `char::to_ascii_lowercase`.
pub open spec fn lower_char(c: char) -> char {
    if is_ascii_upper(c) {
        ((c as u32) + 32) as char
    } else {
        c
    }
}

/// `char::to_ascii_uppercase`.
pub open spec fn upper_char(c: char) -> char {
    if is_ascii_lower(c) {
        ((c as u32) - 32) as char
    } else {
        c
    }
}

/// `str::to_ascii_lowercase`.
pub open spec fn lower(s: Seq<char>) -> Seq<char> {
    s.map_values(|c: char| lower_char(c))
}

/// `str::to_ascii_uppercase`.
pub open spec fn upper(s: Seq<char>) -> Seq<char> {
    s.map_values(|c: char| upper_char(c))
}

/// Index of the first occurrence of `c`, if any.
pub open spec fn find_char(s: Seq<char>, c: char) -> Option<int>
    decreases s.len(),
{
    if s.len() == 0 {
        None
    } else if s[0] == c {
        Some(0)
    } else {
        match find_char(s.drop_first(), c) {
            Some(i) => Some(i + 1),
            None => None,
        }
    }
}

/// The pieces of `s` between the separator `c` (`str::split` with a `char`).
pub open spec fn split_on(s: Seq<char>, c: char) -> Seq<Seq<char>>
    decreases s.len(),
{
    if s.len() == 0 {
        seq![Seq::empty()]
    } else {
        let rest = split_on(s.drop_last(), c);
        if s.last() == c {
            rest.push(Seq::empty())
        } else {
            rest.update(rest.len() - 1, rest.last().push(s.last()))
        }
    }
}

pub proof fn lemma_split_on_nonempty(s: Seq<char>, c: char)
    ensures
        split_on(s, c).len() >= 1,
    decreases s.len(),
{
    if s.len() > 0 {
        lemma_split_on_nonempty(s.drop_last(), c);
    }
}

/// A text without the separator is a single piece.
pub proof fn lemma_split_single(b: Seq<char>, c: char)
    requires
        forall|i: int| 0 <= i < b.len() ==> b[i] != c,
    ensures
        split_on(b, c) == seq![b],
    decreases b.len(),
{
    if b.len() > 0 {
        let t = b.drop_last();
        assert forall|i: int| 0 <= i < t.len() implies t[i] != c by {
            assert(t[i] == b[i]);
        }
        lemma_split_single(t, c);
        assert(t.push(b.last()) == b);
    } else {
        assert(b == Seq::<char>::empty());
    }
}

/// Text without the separator, added at the end, lengthens the last piece.
pub proof fn lemma_split_extend(a: Seq<char>, b: Seq<char>, c: char)
    requires
        forall|i: int| 0 <= i < b.len() ==> b[i] != c,
    ensures
        split_on(a + b, c) == split_on(a, c).update(
            split_on(a, c).len() - 1,
            split_on(a, c).last() + b,
        ),
    decreases b.len(),
{
    lemma_split_on_nonempty(a, c);
    let sa = split_on(a, c);
    if b.len() == 0 {
        assert(a + b == a);
        assert(sa.last() + b == sa.last());
        assert(sa.update(sa.len() - 1, sa.last()) == sa);
    } else {
        let t = b.drop_last();
        assert forall|i: int| 0 <= i < t.len() implies t[i] != c by {
            assert(t[i] == b[i]);
        }
        lemma_split_extend(a, t, c);
        assert((a + b).drop_last() == a + t);
        assert((a + b).last() == b.last());
        let rest = split_on(a + t, c);
        assert(rest == sa.update(sa.len() - 1, sa.last() + t));
        assert(rest.len() == sa.len());
        assert(rest.last() == sa.last() + t);
        assert((sa.last() + t).push(b.last()) =~= sa.last() + b);
        assert(split_on(a + b, c) == rest.update(rest.len() - 1, rest.last().push(b.last())));
        assert(rest.update(rest.len() - 1, rest.last().push(b.last())) =~= sa.update(
            sa.len() - 1,
            sa.last() + b,
        ));
    }
}

/// The non-empty strings of `ps`, in order.
pub open spec fn nonempty_pieces(ps: Seq<Seq<char>>) -> Seq<Seq<char>>
    decreases ps.len(),
{
    if ps.len() == 0 {
        Seq::empty()
    } else if ps.last().len() > 0 {
        nonempty_pieces(ps.drop_last()).push(ps.last())
    } else {
        nonempty_pieces(ps.drop_last())
    }
}

/// The last non-empty string of `ps`, if any.
pub open spec fn last_nonempty(ps: Seq<Seq<char>>) -> Option<Seq<char>>
    decreases ps.len(),
{
    if ps.len() == 0 {
        None
    } else if ps.last().len() > 0 {
        Some(ps.last())
    } else {
        last_nonempty(ps.drop_last())
    }
}

/// The strings of `parts` with `sep` between consecutive ones (`[String]::join`).
pub open spec fn join(parts: Seq<Seq<char>>, sep: Seq<char>) -> Seq<char>
    decreases parts.len(),
{
    if parts.len() == 0 {
        Seq::empty()
    } else if parts.len() == 1 {
        parts[0]
    } else {
        join(parts.drop_last(), sep) + sep + parts.last()
    }
}

/// The views of a sequence of strings.
pub open spec fn views(v: Seq<String>) -> Seq<Seq<char>> {
    v.map_values(|s: String| s@)
}

pub proof fn lemma_find_char(s: Seq<char>, c: char)
    ensures
        find_char(s, c) matches Some(i) ==> 0 <= i < s.len() && s[i] == c && forall|j: int|
            0 <= j < i ==> s[j] != c,
        find_char(s, c) is None ==> forall|j: int| 0 <= j < s.len() ==> s[j] != c,
    decreases s.len(),
{
    if s.len() > 0 && s[0] != c {
        lemma_find_char(s.drop_first(), c);
        assert forall|j: int| 1 <= j < s.len() implies s[j] == s.drop_first()[j - 1] by {}
    }
}

/// Appends one character to a string (`String::push`).
#[verifier::external_body]
pub fn push_char(s: &mut String, c: char)
    ensures
        final(s)@ == old(s)@.push(c),
{
    s.push(c);
}

/// The characters of a string slice, in order.
pub fn chars_of(s: &str) -> (res: Vec<char>)
    ensures
        res@ == s@,
{
    let mut res: Vec<char> = Vec::new();
    for c in it: s.chars()
        invariant
            res@ == it.seq().take(it.index() as int),
            it.seq() == s@,
    {
        res.push(c);
    }
    res
}

/// The string made of `cs[from..to]`.
pub fn string_of_range(cs: &Vec<char>, from: usize, to: usize) -> (res: String)
    requires
        from <= to <= cs.len(),
    ensures
        res@ == cs@.subrange(from as int, to as int),
{
    let mut res = String::new();
    let mut i: usize = from;
    while i < to
        invariant
            from <= i <= to <= cs.len(),
            res@ == cs@.subrange(from as int, i as int),
        decreases to - i,
    {
        push_char(&mut res, cs[i]);
        i += 1;
        assert(res@ == cs@.subrange(from as int, i as int));
    }
    res
}

/// The string made of the given characters.
pub fn string_of(cs: &Vec<char>) -> (res: String)
    ensures
        res@ == cs@,
{
    let res = string_of_range(cs, 0, cs.len());
    assert(cs@.subrange(0, cs@.len() as int) == cs@);
    res
}

/// An owned copy of a string slice.
pub fn owned(s: &str) -> (res: String)
    ensures
        res@ == s@,
{
    let cs = chars_of(s);
    string_of(&cs)
}

/// `a + b`.
pub fn concat(a: &str, b: &str) -> (res: String)
    ensures
        res@ == a@ + b@,
{
    let mut res = owned(a);
    for c in it: b.chars()
        invariant
            res@ == a@ + it.seq().take(it.index() as int),
            it.seq() == b@,
    {
        push_char(&mut res, c);
        assert(res@ == a@ + it.seq().take(it.index() + 1));
    }
    assert(b@.take(b@.len() as int) == b@);
    res
}

/// Appends `b` to `a`.
pub fn append(a: &mut String, b: &str)
    ensures
        final(a)@ == old(a)@ + b@,
{
    let ghost start = a@;
    for c in it: b.chars()
        invariant
            a@ == start + it.seq().take(it.index() as int),
            it.seq() == b@,
    {
        push_char(a, c);
        assert(a@ == start + it.seq().take(it.index() + 1));
    }
    assert(b@.take(b@.len() as int) == b@);
}

pub fn char_in_class(cls: CharClass, c: char) -> (res: bool)
    ensures
        res == in_class(cls, c),
{
    match cls {
        CharClass::Whitespace => {
            ('\u{9}' <= c && c <= '\u{d}') || c == ' ' || c == '\u{85}' || c == '\u{a0}' || c
                == '\u{1680}' || ('\u{2000}' <= c && c <= '\u{200a}') || c == '\u{2028}' || c
                == '\u{2029}' || c == '\u{202f}' || c == '\u{205f}' || c == '\u{3000}'
        },
        CharClass::Only(d) => c == d,
    }
}

/// Number of characters at the front of `cs[..to]` that are in `cls`.
fn front_count(cs: &Vec<char>, to: usize, cls: CharClass) -> (k: usize)
    requires
        to <= cs.len(),
    ensures
        k <= to,
        strip_front(cs@.subrange(0, to as int), cls) == cs@.subrange(k as int, to as int),
{
    let mut i: usize = 0;
    while i < to && char_in_class(cls, cs[i])
        invariant
            i <= to <= cs.len(),
            strip_front(cs@.subrange(0, to as int), cls) == strip_front(
                cs@.subrange(i as int, to as int),
                cls,
            ),
        decreases to - i,
    {
        assert(cs@.subrange(i as int, to as int).drop_first() == cs@.subrange(i + 1, to as int));
        i += 1;
    }
    i
}

/// Length of `cs[from..]` once its trailing characters in `cls` are dropped.
fn back_end(cs: &Vec<char>, from: usize, cls: CharClass) -> (k: usize)
    requires
        from <= cs.len(),
    ensures
        from <= k <= cs.len(),
        strip_back(cs@.subrange(from as int, cs.len() as int), cls) == cs@.subrange(
            from as int,
            k as int,
        ),
{
    let mut k: usize = cs.len();
    while k > from && char_in_class(cls, cs[k - 1])
        invariant
            from <= k <= cs.len(),
            strip_back(cs@.subrange(from as int, cs.len() as int), cls) == strip_back(
                cs@.subrange(from as int, k as int),
                cls,
            ),
        decreases k - from,
    {
        assert(cs@.subrange(from as int, k as int).drop_last() == cs@.subrange(
            from as int,
            k - 1,
        ));
        k -= 1;
    }
    k
}

/// Bounds `(a, b)` such that `cs[a..b]` is `cs` trimmed of `cls` at both ends.
pub fn trim_bounds(cs: &Vec<char>, cls: CharClass) -> (r: (usize, usize))
    ensures
        r.0 <= r.1 <= cs.len(),
        trim_class(cs@, cls) == cs@.subrange(r.0 as int, r.1 as int),
{
    let a = front_count(cs, cs.len(), cls);
    assert(cs@.subrange(0, cs@.len() as int) == cs@);
    let b = back_end(cs, a, cls);
    (a, b)
}

/// `str::trim_matches` for a class of characters.
pub fn trim_in(s: &str, cls: CharClass) -> (res: String)
    ensures
        res@ == trim_class(s@, cls),
{
    let cs = chars_of(s);
    let (a, b) = trim_bounds(&cs, cls);
    string_of_range(&cs, a, b)
}

/// `str::trim_start_matches` for a class of characters.
pub fn trim_start_in(s: &str, cls: CharClass) -> (res: String)
    ensures
        res@ == strip_front(s@, cls),
{
    let cs = chars_of(s);
    let k = front_count(&cs, cs.len(), cls);
    assert(cs@.subrange(0, cs@.len() as int) == cs@);
    string_of_range(&cs, k, cs.len())
}

/// `str::trim_end_matches` for a class of characters.
pub fn trim_end_in(s: &str, cls: CharClass) -> (res: String)
    ensures
        res@ == strip_back(s@, cls),
{
    let cs = chars_of(s);
    let k = back_end(&cs, 0, cls);
    assert(cs@.subrange(0, cs@.len() as int) == cs@);
    string_of_range(&cs, 0, k)
}

/// `str::trim`.
pub fn trim(s: &str) -> (res: String)
    ensures
        res@ == trim_ws(s@),
{
    trim_in(s, CharClass::Whitespace)
}

/// Whether `s.trim().is_empty()`.
pub fn blank(s: &str) -> (res: bool)
    ensures
        res == is_blank(s@),
{
    let cs = chars_of(s);
    let (a, b) = trim_bounds(&cs, CharClass::Whitespace);
    a == b
}

/// Whether `s[at..]` starts with `p`.
pub fn has_prefix_at(s: &Vec<char>, at: usize, p: &Vec<char>) -> (res: bool)
    requires
        at <= s.len(),
    ensures
        res == is_prefix(p@, s@.subrange(at as int, s.len() as int)),
{
    if p.len() > s.len() - at {
        return false;
    }
    let mut i: usize = 0;
    while i < p.len()
        invariant
            at + p.len() <= s.len(),
            i <= p.len(),
            forall|j: int| 0 <= j < i ==> s@[at + j] == p@[j],
        decreases p.len() - i,
    {
        if s[at + i] != p[i] {
            assert(s@.subrange(at as int, s.len() as int).subrange(0, p.len() as int)[i as int]
                != p@[i as int]);
            return false;
        }
        i += 1;
    }
    assert(s@.subrange(at as int, s.len() as int).subrange(0, p.len() as int) == p@);
    true
}

/// `str::starts_with`.
pub fn starts_with(s: &str, p: &str) -> (res: bool)
    ensures
        res == is_prefix(p@, s@),
{
    let cs = chars_of(s);
    let ps = chars_of(p);
    assert(cs@.subrange(0, cs@.len() as int) == cs@);
    has_prefix_at(&cs, 0, &ps)
}

/// `str::ends_with`.
pub fn ends_with(s: &str, p: &str) -> (res: bool)
    ensures
        res == is_suffix(p@, s@),
{
    let cs = chars_of(s);
    let ps = chars_of(p);
    if ps.len() > cs.len() {
        return false;
    }
    let r = has_prefix_at(&cs, cs.len() - ps.len(), &ps);
    proof {
        let t = cs@.subrange(cs.len() - ps.len(), cs.len() as int);
        assert(t.subrange(0, ps@.len() as int) == t);
    }
    r
}

/// Equality of the characters of two string slices.
pub fn str_eq(a: &str, b: &str) -> (res: bool)
    ensures
        res == (a@ == b@),
{
    let x = chars_of(a);
    let y = chars_of(b);
    if x.len() != y.len() {
        return false;
    }
    let mut i: usize = 0;
    while i < x.len()
        invariant
            x@ == a@,
            y@ == b@,
            x.len() == y.len(),
            i <= x.len(),
            forall|j: int| 0 <= j < i ==> x@[j] == y@[j],
        decreases x.len() - i,
    {
        if x[i] != y[i] {
            assert(x@[i as int] != y@[i as int]);
            return false;
        }
        i += 1;
    }
    assert(x@ == y@);
    true
}

/// `s.split(c)`, collected.
pub fn split_pieces(s: &str, c: char) -> (res: Vec<String>)
    ensures
        views(res@) == split_on(s@, c),
{
    let cs = chars_of(s);
    let mut res: Vec<String> = Vec::new();
    let mut cur = String::new();
    let mut i: usize = 0;
    while i < cs.len()
        invariant
            i <= cs.len(),
            cs@ == s@,
            views(res@).push(cur@) == split_on(cs@.subrange(0, i as int), c),
        decreases cs.len() - i,
    {
        proof {
            assert(cs@.subrange(0, i + 1).drop_last() == cs@.subrange(0, i as int));
            assert(cs@.subrange(0, i + 1).last() == cs@[i as int]);
            lemma_split_on_nonempty(cs@.subrange(0, i as int), c);
        }
        if cs[i] == c {
            let done = cur;
            res.push(done);
            cur = String::new();
            assert(views(res@) == views(res@).drop_last().push(done@));
        } else {
            push_char(&mut cur, cs[i]);
            assert(views(res@).push(cur@) == split_on(cs@.subrange(0, i as int), c).update(
                split_on(cs@.subrange(0, i as int), c).len() - 1,
                split_on(cs@.subrange(0, i as int), c).last().push(cs@[i as int]),
            ));
        }
        i += 1;
    }
    res.push(cur);
    assert(cs@.subrange(0, cs@.len() as int) == cs@);
    assert(views(res@) == views(res@).drop_last().push(res@.last()@));
    res
}

/// `s.split_once(c)`: the text before and after the first `c`.
pub fn split_once(s: &str, c: char) -> (res: Option<(String, String)>)
    ensures
        match find_char(s@, c) {
            Some(i) => res matches Some(p) && p.0@ == s@.subrange(0, i) && p.1@ == s@.subrange(
                i + 1,
                s@.len() as int,
            ),
            None => res is None,
        },
{
    let cs = chars_of(s);
    let mut i: usize = 0;
    while i < cs.len()
        invariant
            i <= cs.len(),
            cs@ == s@,
            forall|j: int| 0 <= j < i ==> cs@[j] != c,
        decreases cs.len() - i,
    {
        if cs[i] == c {
            proof {
                lemma_find_char(s@, c);
            }
            return Some((string_of_range(&cs, 0, i), string_of_range(&cs, i + 1, cs.len())));
        }
        i += 1;
    }
    proof {
        lemma_find_char(s@, c);
    }
    None
}

/// `parts` joined with `sep` between consecutive ones.
pub fn join_strings(parts: &Vec<String>, sep: &str) -> (res: String)
    ensures
        res@ == join(views(parts@), sep@),
{
    let mut res = String::new();
    let mut i: usize = 0;
    while i < parts.len()
        invariant
            i <= parts.len(),
            res@ == join(views(parts@.subrange(0, i as int)), sep@),
        decreases parts.len() - i,
    {
        proof {
            let pre = views(parts@.subrange(0, i as int));
            let post = views(parts@.subrange(0, i + 1));
            assert(post.drop_last() == pre);
            assert(post.last() == parts@[i as int]@);
        }
        if i > 0 {
            append(&mut res, sep);
        }
        append(&mut res, parts[i].as_str());
        i += 1;
    }
    assert(parts@.subrange(0, parts@.len() as int) == parts@);
    res
}

/// The decimal digit for `d < 10`.
pub open spec fn digit_char(d: int) -> char {
    (('0' as int) + d) as char
}

/// The decimal text of a number (`u32::to_string`).
pub open spec fn decimal(n: nat) -> Seq<char>
    decreases n,
{
    if n < 10 {
        seq![digit_char(n as int)]
    } else {
        decimal(n / 10).push(digit_char((n % 10) as int))
    }
}

/// `n.to_string()`.
pub fn decimal_text(n: u32) -> (res: String)
    ensures
        res@ == decimal(n as nat),
{
    if n == 0 {
        let mut r = String::new();
        push_char(&mut r, '0');
        return r;
    }
    let mut m: u32 = n;
    let mut acc: Vec<char> = Vec::new();
    while m > 0
        invariant
            decimal(n as nat) == (if m == 0 {
                Seq::<char>::empty()
            } else {
                decimal(m as nat)
            }) + acc@,
        decreases m,
    {
        let d = (m % 10) as u8;
        let c = (48u8 + d) as char;
        assert(c == digit_char((m % 10) as int));
        acc.insert(0, c);
        proof {
            let next: nat = (m / 10) as nat;
            if m >= 10 {
                assert(decimal(m as nat) == decimal(next).push(c));
            } else {
                assert(decimal(m as nat) == seq![c]);
            }
        }
        m = m / 10;
    }
    string_of(&acc)
}

pub fn lower_of(c: char) -> (res: char)
    ensures
        res == lower_char(c),
{
    if 'A' <= c && c <= 'Z' {
        let b = (c as u8) + 32;
        let r = b as char;
        assert(r == ((c as u32) + 32) as char);
        r
    } else {
        c
    }
}

} // verus!
