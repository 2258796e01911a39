//! The textual model description: one equation `name = expression` per line.
//!
//! Input is UTF-8 bytes. Lines are split at `\n`; a line is trimmed, split
//! at every `=`, and the empty pieces dropped; a line left with exactly two
//! pieces is an equation, whose name and right-hand side are those pieces,
//! trimmed. Other lines are ignored. Trimming removes the characters that
//! Unicode marks `White_Space`, in their UTF-8 form.
use vstd::prelude::*;

verus! {

/// The byte that ends a line.
pub const NEWLINE: u8 = 10;

/// The byte between an equation's name and its right-hand side.
pub const EQUALS: u8 = 61;

/// An ASCII whitespace byte.
pub open spec fn is_space(b: u8) -> bool {
    b == 32 || (9 <= b && b <= 13)
}

/// The three UTF-8 bytes of a whitespace character outside Latin-1: U+1680,
/// U+2000 to U+200A, U+2028, U+2029, U+202F, U+205F and U+3000.
pub open spec fn is_wide_space(a: u8, b: u8, c: u8) -> bool {
    ||| (a == 0xE1 && b == 0x9A && c == 0x80)
    ||| (a == 0xE2 && b == 0x80 && ((0x80 <= c && c <= 0x8A) || c == 0xA8 || c == 0xA9 || c == 0xAF))
    ||| (a == 0xE2 && b == 0x81 && c == 0x9F)
    ||| (a == 0xE3 && b == 0x80 && c == 0x80)
}

/// The two UTF-8 bytes of U+0085 or U+00A0.
pub open spec fn is_latin_space(a: u8, b: u8) -> bool {
    a == 0xC2 && (b == 0x85 || b == 0xA0)
}

/// The length in bytes of the whitespace character that starts `s`, or zero.
pub open spec fn space_prefix(s: Seq<u8>) -> int {
    if s.len() >= 1 && is_space(s[0]) {
        1
    } else if s.len() >= 2 && is_latin_space(s[0], s[1]) {
        2
    } else if s.len() >= 3 && is_wide_space(s[0], s[1], s[2]) {
        3
    } else {
        0
    }
}

/// The length in bytes of the whitespace character that ends `s`, or zero.
pub open spec fn space_suffix(s: Seq<u8>) -> int {
    let n = s.len() as int;
    if n >= 1 && is_space(s[n - 1]) {
        1
    } else if n >= 2 && is_latin_space(s[n - 2], s[n - 1]) {
        2
    } else if n >= 3 && is_wide_space(s[n - 3], s[n - 2], s[n - 1]) {
        3
    } else {
        0
    }
}

/// `s` without its leading whitespace.
pub open spec fn trim_start(s: Seq<u8>) -> Seq<u8>
    decreases s.len(),
{
    if space_prefix(s) > 0 {
        trim_start(s.subrange(space_prefix(s), s.len() as int))
    } else {
        s
    }
}

/// `s` without its trailing whitespace.
pub open spec fn trim_end(s: Seq<u8>) -> Seq<u8>
    decreases s.len(),
{
    if space_suffix(s) > 0 {
        trim_end(s.subrange(0, s.len() - space_suffix(s)))
    } else {
        s
    }
}

/// `s` without leading or trailing whitespace.
pub open spec fn trim(s: Seq<u8>) -> Seq<u8> {
    trim_end(trim_start(s))
}

/// The pieces of `s` between occurrences of `sep`: one more than there are
/// separators, possibly empty.
pub open spec fn split_on(s: Seq<u8>, sep: u8) -> Seq<Seq<u8>>
    decreases s.len(),
{
    if s.len() == 0 {
        seq![Seq::<u8>::empty()]
    } else {
        let rest = split_on(s.drop_last(), sep);
        if s.last() == sep {
            rest.push(Seq::<u8>::empty())
        } else {
            rest.update(rest.len() - 1, rest.last().push(s.last()))
        }
    }
}

/// The pieces that are not empty, in order.
pub open spec fn non_empty(parts: Seq<Seq<u8>>) -> Seq<Seq<u8>>
    decreases parts.len(),
{
    if parts.len() == 0 {
        parts
    } else if parts.last().len() > 0 {
        non_empty(parts.drop_last()).push(parts.last())
    } else {
        non_empty(parts.drop_last())
    }
}

/// The equation a line holds, if any: its name and right-hand side.
pub open spec fn equation_of(line: Seq<u8>) -> Option<(Seq<u8>, Seq<u8>)> {
    let parts = non_empty(split_on(trim(line), EQUALS));
    if parts.len() == 2 {
        Some((trim(parts[0]), trim(parts[1])))
    } else {
        None
    }
}

/// The equations of a sequence of lines, in order.
pub open spec fn equations_of(lines: Seq<Seq<u8>>) -> Seq<(Seq<u8>, Seq<u8>)>
    decreases lines.len(),
{
    if lines.len() == 0 {
        Seq::empty()
    } else {
        match equation_of(lines.last()) {
            Some(e) => equations_of(lines.drop_last()).push(e),
            None => equations_of(lines.drop_last()),
        }
    }
}

/// The equations of a model description.
pub open spec fn equations_in(input: Seq<u8>) -> Seq<(Seq<u8>, Seq<u8>)> {
    equations_of(split_on(input, NEWLINE))
}

/// The views of a sequence of byte vectors.
pub open spec fn views(v: Seq<Vec<u8>>) -> Seq<Seq<u8>> {
    v.map_values(|b: Vec<u8>| b@)
}

/// The views of a sequence of pairs of byte vectors.
pub open spec fn pair_views(v: Seq<(Vec<u8>, Vec<u8>)>) -> Seq<(Seq<u8>, Seq<u8>)> {
    v.map_values(|p: (Vec<u8>, Vec<u8>)| (p.0@, p.1@))
}

proof fn lemma_split_non_empty(s: Seq<u8>, sep: u8)
    ensures
        split_on(s, sep).len() >= 1,
    decreases s.len(),
{
    if s.len() > 0 {
        lemma_split_non_empty(s.drop_last(), sep);
    }
}

/// The length in bytes of the whitespace character that starts `s[i..j]`,
/// or zero.
fn space_prefix_at(s: &Vec<u8>, i: usize, j: usize) -> (k: usize)
    requires
        i <= j <= s@.len(),
    ensures
        k == space_prefix(s@.subrange(i as int, j as int)),
        k <= j - i,
{
    let n: usize = j - i;
    if n >= 1 && (s[i] == 32 || (9 <= s[i] && s[i] <= 13)) {
        1
    } else if n >= 2 && s[i] == 0xC2 && (s[i + 1] == 0x85 || s[i + 1] == 0xA0) {
        2
    } else if n >= 3 && wide_space(s[i], s[i + 1], s[i + 2]) {
        3
    } else {
        0
    }
}

/// The length in bytes of the whitespace character that ends `s[i..j]`, or
/// zero.
fn space_suffix_at(s: &Vec<u8>, i: usize, j: usize) -> (k: usize)
    requires
        i <= j <= s@.len(),
    ensures
        k == space_suffix(s@.subrange(i as int, j as int)),
        k <= j - i,
{
    let n: usize = j - i;
    if n >= 1 && (s[j - 1] == 32 || (9 <= s[j - 1] && s[j - 1] <= 13)) {
        1
    } else if n >= 2 && s[j - 2] == 0xC2 && (s[j - 1] == 0x85 || s[j - 1] == 0xA0) {
        2
    } else if n >= 3 && wide_space(s[j - 3], s[j - 2], s[j - 1]) {
        3
    } else {
        0
    }
}

fn wide_space(a: u8, b: u8, c: u8) -> (r: bool)
    ensures
        r == is_wide_space(a, b, c),
{
    (a == 0xE1 && b == 0x9A && c == 0x80) || (a == 0xE2 && b == 0x80 && ((0x80 <= c && c <= 0x8A) || c
        == 0xA8 || c == 0xA9 || c == 0xAF)) || (a == 0xE2 && b == 0x81 && c == 0x9F) || (a == 0xE3 && b
        == 0x80 && c == 0x80)
}

/// `s` without leading or trailing Unicode whitespace.
pub fn trim_bytes(s: &Vec<u8>) -> (r: Vec<u8>)
    ensures
        r@ == trim(s@),
{
    let n: usize = s.len();
    let mut i: usize = 0;
    assert(s@.subrange(0, n as int) =~= s@);
    let mut k: usize = space_prefix_at(s, i, n);
    while k > 0
        invariant
            n == s@.len(),
            i <= n,
            k == space_prefix(s@.subrange(i as int, n as int)),
            k <= n - i,
            trim_start(s@) == trim_start(s@.subrange(i as int, n as int)),
        decreases n - i,
    {
        assert(s@.subrange(i as int, n as int).subrange(k as int, (n - i) as int) =~= s@.subrange(i + k, n as int));
        i = i + k;
        k = space_prefix_at(s, i, n);
    }
    let mut j: usize = n;
    let mut e: usize = space_suffix_at(s, i, j);
    while e > 0
        invariant
            n == s@.len(),
            i <= j <= n,
            e == space_suffix(s@.subrange(i as int, j as int)),
            e <= j - i,
            trim(s@) == trim_end(s@.subrange(i as int, j as int)),
        decreases j - i,
    {
        assert(s@.subrange(i as int, j as int).subrange(0, (j - i - e) as int) =~= s@.subrange(i as int, (j - e) as int));
        j = j - e;
        e = space_suffix_at(s, i, j);
    }
    let mut r: Vec<u8> = Vec::new();
    let mut t: usize = i;
    while t < j
        invariant
            n == s@.len(),
            i <= t <= j <= n,
            r@ == s@.subrange(i as int, t as int),
        decreases j - t,
    {
        r.push(s[t]);
        t = t + 1;
        assert(r@ =~= s@.subrange(i as int, t as int));
    }
    r
}

/// The pieces of `s` between occurrences of `sep`.
pub fn split_bytes(s: &Vec<u8>, sep: u8) -> (r: Vec<Vec<u8>>)
    ensures
        views(r@) == split_on(s@, sep),
{
    let mut done: Vec<Vec<u8>> = Vec::new();
    let mut current: Vec<u8> = Vec::new();
    let mut i: usize = 0;
    while i < s.len()
        invariant
            i <= s@.len(),
            views(done@).push(current@) == split_on(s@.subrange(0, i as int), sep),
        decreases s@.len() - i,
    {
        let ghost pre = s@.subrange(0, i as int);
        let ghost next = s@.subrange(0, i + 1);
        assert(next.drop_last() =~= pre);
        proof {
            lemma_split_non_empty(pre, sep);
        }
        if s[i] == sep {
            let piece = current;
            done.push(piece);
            current = Vec::new();
            assert(views(done@).push(current@) =~= split_on(next, sep));
        } else {
            current.push(s[i]);
            assert(views(done@).push(current@) =~= split_on(next, sep));
        }
        i = i + 1;
    }
    assert(s@.subrange(0, i as int) =~= s@);
    done.push(current);
    assert(views(done@) =~= split_on(s@, sep));
    done
}

/// The pieces that are not empty, in order.
fn non_empty_pieces(parts: Vec<Vec<u8>>) -> (r: Vec<Vec<u8>>)
    ensures
        views(r@) == non_empty(views(parts@)),
{
    let mut r: Vec<Vec<u8>> = Vec::new();
    let mut i: usize = 0;
    while i < parts.len()
        invariant
            i <= parts@.len(),
            views(r@) == non_empty(views(parts@.subrange(0, i as int))),
        decreases parts@.len() - i,
    {
        let ghost next = parts@.subrange(0, i + 1);
        assert(views(next).drop_last() =~= views(parts@.subrange(0, i as int)));
        assert(views(next).last() == parts@[i as int]@);
        if parts[i].len() > 0 {
            let mut piece: Vec<u8> = Vec::new();
            let mut k: usize = 0;
            while k < parts[i].len()
                invariant
                    i < parts@.len(),
                    k <= parts@[i as int]@.len(),
                    piece@ == parts@[i as int]@.subrange(0, k as int),
                decreases parts@[i as int]@.len() - k,
            {
                piece.push(parts[i][k]);
                k = k + 1;
                assert(piece@ =~= parts@[i as int]@.subrange(0, k as int));
            }
            assert(piece@ =~= parts@[i as int]@);
            r.push(piece);
            assert(views(r@) =~= non_empty(views(next)));
        }
        i = i + 1;
    }
    assert(parts@.subrange(0, i as int) =~= parts@);
    r
}

/// The equation a line holds, if any: its name and right-hand side, both
/// trimmed.
pub fn parse_line(line: &Vec<u8>) -> (r: Option<(Vec<u8>, Vec<u8>)>)
    ensures
        match r {
            Some(e) => equation_of(line@) == Some((e.0@, e.1@)),
            None => equation_of(line@) is None,
        },
{
    let trimmed = trim_bytes(line);
    let parts = non_empty_pieces(split_bytes(&trimmed, EQUALS));
    if parts.len() == 2 {
        let name = trim_bytes(&parts[0]);
        let rhs = trim_bytes(&parts[1]);
        Some((name, rhs))
    } else {
        None
    }
}

/// The equations of a model description, in the order of their lines.
pub fn parse_equations(input: &Vec<u8>) -> (r: Vec<(Vec<u8>, Vec<u8>)>)
    ensures
        pair_views(r@) == equations_in(input@),
{
    let lines = split_bytes(input, NEWLINE);
    let mut r: Vec<(Vec<u8>, Vec<u8>)> = Vec::new();
    let mut i: usize = 0;
    while i < lines.len()
        invariant
            i <= lines@.len(),
            views(lines@) == split_on(input@, NEWLINE),
            pair_views(r@) == equations_of(views(lines@).subrange(0, i as int)),
        decreases lines@.len() - i,
    {
        let ghost next = views(lines@).subrange(0, i + 1);
        assert(next.drop_last() =~= views(lines@).subrange(0, i as int));
        assert(next.last() == lines@[i as int]@);
        match parse_line(&lines[i]) {
            Some(e) => {
                r.push(e);
                assert(pair_views(r@) =~= equations_of(next));
            },
            None => {
                assert(pair_views(r@) =~= equations_of(next));
            },
        }
        i = i + 1;
    }
    assert(views(lines@).subrange(0, i as int) =~= views(lines@));
    r
}

/// The first position at which `names` holds `name`, if any.
pub fn find_name(names: &Vec<Vec<u8>>, name: &Vec<u8>) -> (r: Option<usize>)
    ensures
        match r {
            Some(i) => i < names@.len() && names@[i as int]@ == name@ && forall|k: int|
                0 <= k < i ==> (#[trigger] names@[k])@ != name@,
            None => forall|k: int| 0 <= k < names@.len() ==> (#[trigger] names@[k])@ != name@,
        },
{
    let mut i: usize = 0;
    while i < names.len()
        invariant
            i <= names@.len(),
            forall|k: int| 0 <= k < i ==> (#[trigger] names@[k])@ != name@,
        decreases names@.len() - i,
    {
        if bytes_equal(&names[i], name) {
            return Some(i);
        }
        i = i + 1;
    }
    None
}

/// Whether two byte strings are equal.
pub fn bytes_equal(a: &Vec<u8>, b: &Vec<u8>) -> (r: bool)
    ensures
        r == (a@ == b@),
{
    if a.len() != b.len() {
        return false;
    }
    let mut i: usize = 0;
    while i < a.len()
        invariant
            a@.len() == b@.len(),
            i <= a@.len(),
            forall|k: int| 0 <= k < i ==> a@[k] == b@[k],
        decreases a@.len() - i,
    {
        if a[i] != b[i] {
            return false;
        }
        i = i + 1;
    }
    assert(a@ =~= b@);
    true
}

} // verus!
