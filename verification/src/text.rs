//! Text as sequences of characters: comparison, trimming, splitting, decimal
//! numbers and the canonical form under which clipboard texts are compared.
use vstd::prelude::*;
use vstd::string::*;

use crate::wire::views;

verus! {

/// `String::push` appends the character to the end of the string.
pub assume_specification[ String::push ](s: &mut String, ch: char)
    ensures
        final(s)@ == old(s)@.push(ch),
;

/// The characters of `s`.
pub fn chars_of(s: &str) -> (r: Vec<char>)
    ensures
        r@ == s@,
{
    let mut r: Vec<char> = Vec::new();
    for c in it: s.chars()
        invariant
            it.seq() == s@,
            r@ == s@.subrange(0, it.index() as int),
    {
        r.push(c);
        assert(r@ =~= s@.subrange(0, it.index() + 1));
    }
    assert(r@ =~= s@);
    r
}

/// The string of the characters `cs[from..to]`.
pub fn string_of(cs: &Vec<char>, from: usize, to: usize) -> (r: String)
    requires
        from <= to <= cs@.len(),
    ensures
        r@ == cs@.subrange(from as int, to as int),
{
    let mut r = String::new();
    let mut i: usize = from;
    while i < to
        invariant
            from <= i <= to <= cs@.len(),
            r@ == cs@.subrange(from as int, i as int),
        decreases to - i,
    {
        r.push(cs[i]);
        i = i + 1;
        assert(r@ =~= cs@.subrange(from as int, i as int));
    }
    r
}

/// True iff both texts hold the same characters.
pub fn same_text(a: &str, b: &str) -> (r: bool)
    ensures
        r == (a@ == b@),
{
    let x = chars_of(a);
    let y = chars_of(b);
    if x.len() != y.len() {
        return false;
    }
    let mut i: usize = 0;
    while i < x.len()
        invariant
            i <= x@.len(),
            x@.len() == y@.len(),
            x@ == a@,
            y@ == b@,
            forall|j: int| 0 <= j < i ==> x@[j] == y@[j],
        decreases x@.len() - i,
    {
        if x[i] != y[i] {
            return false;
        }
        i = i + 1;
    }
    assert(x@ =~= y@);
    true
}

/// A character with the Unicode `White_Space` property.
pub open spec fn white_space(c: char) -> bool {
    let n = c as u32;
    ||| 0x9 <= n <= 0xD
    ||| n == 0x20
    ||| n == 0x85
    ||| n == 0xA0
    ||| n == 0x1680
    ||| 0x2000 <= n <= 0x200A
    ||| n == 0x2028
    ||| n == 0x2029
    ||| n == 0x202F
    ||| n == 0x205F
    ||| n == 0x3000
}

/// Decides [`white_space`].
pub fn is_white_space(c: char) -> (r: bool)
    ensures
        r == white_space(c),
{
    let n: u32 = c as u32;
    (0x9 <= n && n <= 0xD) || n == 0x20 || n == 0x85 || n == 0xA0 || n == 0x1680 || (0x2000 <= n && n
        <= 0x200A) || n == 0x2028 || n == 0x2029 || n == 0x202F || n == 0x205F || n == 0x3000
}

/// `s` without its leading white space.
pub open spec fn trim_start(s: Seq<char>) -> Seq<char>
    decreases s.len(),
{
    if s.len() > 0 && white_space(s[0]) {
        trim_start(s.drop_first())
    } else {
        s
    }
}

/// `s` without its trailing white space.
pub open spec fn trim_end(s: Seq<char>) -> Seq<char>
    decreases s.len(),
{
    if s.len() > 0 && white_space(s.last()) {
        trim_end(s.drop_last())
    } else {
        s
    }
}

/// `s` without its leading and trailing white space.
pub open spec fn trimmed(s: Seq<char>) -> Seq<char> {
    trim_end(trim_start(s))
}

/// A copy of `s` without its leading and trailing white space.
pub fn trim(s: &str) -> (r: String)
    ensures
        r@ == trimmed(s@),
{
    let cs = chars_of(s);
    let mut from: usize = 0;
    assert(cs@.subrange(0, cs@.len() as int) =~= cs@);
    while from < cs.len() && is_white_space(cs[from])
        invariant
            from <= cs@.len(),
            trim_start(cs@.subrange(from as int, cs@.len() as int)) == trim_start(cs@),
        decreases cs@.len() - from,
    {
        assert(cs@.subrange(from as int, cs@.len() as int).drop_first() =~= cs@.subrange(
            from + 1,
            cs@.len() as int,
        ));
        from = from + 1;
    }
    let ghost body = cs@.subrange(from as int, cs@.len() as int);
    assert(trim_start(cs@) == body);
    let mut to: usize = cs.len();
    while to > from && is_white_space(cs[to - 1])
        invariant
            from <= to <= cs@.len(),
            trim_end(cs@.subrange(from as int, to as int)) == trim_end(body),
        decreases to,
    {
        let ghost now = cs@.subrange(from as int, to as int);
        assert(now.last() == cs@[to - 1]);
        assert(now.drop_last() =~= cs@.subrange(from as int, to - 1));
        to = to - 1;
    }
    proof {
        let now = cs@.subrange(from as int, to as int);
        if to > from {
            assert(now.last() == cs@[to - 1]);
        }
    }
    string_of(&cs, from, to)
}

/// `s` with every CR LF pair and every lone CR replaced by one LF.
pub open spec fn unix_lines(s: Seq<char>) -> Seq<char>
    decreases s.len(),
{
    if s.len() == 0 {
        s
    } else if s.last() == '\r' {
        unix_lines(s.drop_last()).push('\n')
    } else if s.last() == '\n' && s.len() > 1 && s[s.len() - 2] == '\r' {
        unix_lines(s.drop_last())
    } else {
        unix_lines(s.drop_last()).push(s.last())
    }
}

/// The form under which two clipboard texts are the same text: trimmed, with
/// LF line ends.
pub open spec fn canonical(s: Seq<char>) -> Seq<char> {
    unix_lines(trimmed(s))
}

/// The canonical form of a clipboard text.
pub fn canon_text(s: &str) -> (r: String)
    ensures
        r@ == canonical(s@),
{
    let t = trim(s);
    let cs = chars_of(t.as_str());
    let mut r = String::new();
    let mut i: usize = 0;
    assert(cs@.subrange(0, 0) =~= Seq::<char>::empty());
    while i < cs.len()
        invariant
            i <= cs@.len(),
            r@ == unix_lines(cs@.subrange(0, i as int)),
        decreases cs@.len() - i,
    {
        let c = cs[i];
        proof {
            let next = cs@.subrange(0, i + 1);
            assert(next.drop_last() =~= cs@.subrange(0, i as int));
            assert(next.last() == c);
        }
        if c == '\r' {
            r.push('\n');
        } else if c == '\n' && i > 0 && cs[i - 1] == '\r' {
        } else {
            r.push(c);
        }
        i = i + 1;
    }
    assert(cs@.subrange(0, cs@.len() as int) =~= cs@);
    r
}

proof fn lemma_trim_end_keeps_start(s: Seq<char>)
    ensures
        trim_end(s).len() <= s.len(),
        trim_end(s) == s.take(trim_end(s).len() as int),
        trim_end(trim_end(s)) == trim_end(s),
    decreases s.len(),
{
    if s.len() > 0 && white_space(s.last()) {
        lemma_trim_end_keeps_start(s.drop_last());
        assert(s.drop_last().take(trim_end(s).len() as int) =~= s.take(trim_end(s).len() as int));
    } else {
        assert(s.take(s.len() as int) =~= s);
    }
}

proof fn lemma_trim_start_settles(s: Seq<char>)
    ensures
        trim_start(s).len() > 0 ==> !white_space(trim_start(s)[0]),
    decreases s.len(),
{
    if s.len() > 0 && white_space(s[0]) {
        lemma_trim_start_settles(s.drop_first());
    }
}

/// Trimming twice is trimming once.
pub proof fn trimming_settles(s: Seq<char>)
    ensures
        trimmed(trimmed(s)) == trimmed(s),
{
    lemma_trim_start_settles(s);
    lemma_trim_end_keeps_start(trim_start(s));
    assert(trim_start(trimmed(s)) == trimmed(s));
}

proof fn lemma_unix_lines_front(c: char, y: Seq<char>)
    ensures
        unix_lines(seq![c] + y) == if c == '\r' && y.len() > 0 && y[0] == '\n' {
            unix_lines(y)
        } else if c == '\r' {
            seq!['\n'] + unix_lines(y)
        } else {
            seq![c] + unix_lines(y)
        },
    decreases y.len(),
{
    let s = seq![c] + y;
    reveal_with_fuel(unix_lines, 3);
    if y.len() == 0 {
        assert(s.drop_last() =~= Seq::empty());
        assert(unix_lines(s) =~= unix_lines(Seq::empty()).push(
            if c == '\r' {
                '\n'
            } else {
                c
            },
        ));
        assert(seq!['\n'] + unix_lines(y) =~= seq!['\n']);
        assert(seq![c] + unix_lines(y) =~= seq![c]);
    } else {
        let head = y.drop_last();
        assert(s.drop_last() =~= seq![c] + head);
        lemma_unix_lines_front(c, head);
        if y.len() == 1 {
            assert(head =~= Seq::empty());
        } else {
            assert(s[s.len() - 2] == y[y.len() - 2]);
            assert(head[0] == y[0]);
        }
        let first = if c == '\r' {
            '\n'
        } else {
            c
        };
        assert(seq![first] + unix_lines(head).push(y.last()) =~= (seq![first] + unix_lines(head)).push(
            y.last(),
        ));
        assert(seq![first] + unix_lines(head).push('\n') =~= (seq![first] + unix_lines(head)).push(
            '\n',
        ));
    }
}

proof fn lemma_trim_start_commutes(s: Seq<char>)
    ensures
        unix_lines(trim_start(s)) == trim_start(unix_lines(s)),
    decreases s.len(),
{
    if s.len() > 0 {
        let c = s[0];
        let y = s.drop_first();
        assert(seq![c] + y =~= s);
        lemma_unix_lines_front(c, y);
        let first = if c == '\r' {
            '\n'
        } else {
            c
        };
        assert((seq![first] + unix_lines(y)).drop_first() =~= unix_lines(y));
        if white_space(c) {
            lemma_trim_start_commutes(y);
        }
    }
}

proof fn lemma_trim_end_commutes(s: Seq<char>)
    ensures
        unix_lines(trim_end(s)) == trim_end(unix_lines(s)),
    decreases s.len(),
{
    if s.len() > 0 {
        let rest = s.drop_last();
        lemma_trim_end_commutes(rest);
        assert(unix_lines(rest).push('\n').drop_last() =~= unix_lines(rest));
        assert(unix_lines(rest).push(s.last()).drop_last() =~= unix_lines(rest));
    }
}

/// It does not matter whether a text is trimmed before or after its line ends are
/// made LF.
pub proof fn trimming_commutes(s: Seq<char>)
    ensures
        canonical(s) == trimmed(unix_lines(s)),
{
    lemma_trim_start_commutes(s);
    lemma_trim_end_commutes(trim_start(s));
}

proof fn lemma_unix_lines_free(s: Seq<char>)
    ensures
        !unix_lines(s).contains('\r'),
    decreases s.len(),
{
    if s.len() > 0 {
        let rest = unix_lines(s.drop_last());
        lemma_unix_lines_free(s.drop_last());
        assert forall|i: int| 0 <= i < unix_lines(s).len() implies unix_lines(s)[i] != '\r' by {
            if i < rest.len() {
                assert(unix_lines(s)[i] == rest[i]);
                assert(rest.contains(rest[i]));
            }
        }
    }
}

proof fn lemma_unix_lines_keep(s: Seq<char>)
    requires
        !s.contains('\r'),
    ensures
        unix_lines(s) == s,
    decreases s.len(),
{
    if s.len() > 0 {
        let rest = s.drop_last();
        assert(!rest.contains('\r')) by {
            if rest.contains('\r') {
                let i = rest.index_of('\r');
                assert(s[i] == '\r');
            }
        }
        assert(s.contains(s.last()));
        if s.len() > 1 {
            assert(s.contains(s[s.len() - 2]));
        }
        lemma_unix_lines_keep(rest);
        assert(rest.push(s.last()) =~= s);
    }
}

/// Space around a text does not change its canonical form, and the canonical form
/// of the canonical form is itself.
pub proof fn canonical_form_settles(s: Seq<char>)
    ensures
        canonical(trimmed(s)) == canonical(s),
        canonical(canonical(s)) == canonical(s),
{
    trimming_settles(s);
    trimming_commutes(trimmed(s));
    lemma_unix_lines_free(trimmed(s));
    lemma_unix_lines_keep(canonical(s));
    assert(trimmed(canonical(s)) == canonical(s));
}

/// `s` with CR LF for every LF.
pub open spec fn windows_lines(s: Seq<char>) -> Seq<char>
    decreases s.len(),
{
    if s.len() == 0 {
        s
    } else if s.last() == '\n' {
        windows_lines(s.drop_last()).push('\r').push('\n')
    } else {
        windows_lines(s.drop_last()).push(s.last())
    }
}

proof fn lemma_unix_of_windows(s: Seq<char>)
    requires
        !s.contains('\r'),
    ensures
        unix_lines(windows_lines(s)) == s,
        windows_lines(s).len() > 0 ==> windows_lines(s).last() != '\r',
    decreases s.len(),
{
    if s.len() > 0 {
        let rest = s.drop_last();
        assert(!rest.contains('\r')) by {
            if rest.contains('\r') {
                let i = rest.index_of('\r');
                assert(s[i] == '\r');
            }
        }
        assert(s.contains(s.last()));
        lemma_unix_of_windows(rest);
        let w = windows_lines(rest);
        if s.last() == '\n' {
            let open = w.push('\r');
            assert(open.drop_last() =~= w);
            assert(open.push('\n').drop_last() =~= open);
            assert(unix_lines(open) == unix_lines(w).push('\n'));
            assert(unix_lines(open.push('\n')) == unix_lines(open));
        } else {
            assert(w.push(s.last()).drop_last() =~= w);
        }
        assert(rest.push(s.last()) =~= s);
    }
}

/// A text that was copied with CR LF line ends has the canonical form of the same
/// text with LF line ends.
pub proof fn line_ends_do_not_matter(s: Seq<char>)
    requires
        !s.contains('\r'),
    ensures
        canonical(windows_lines(s)) == canonical(s),
{
    trimming_commutes(windows_lines(s));
    trimming_commutes(s);
    lemma_unix_of_windows(s);
    lemma_unix_lines_keep(s);
}

/// The decimal digit of `d`.
pub open spec fn digit(d: int) -> char {
    (48 + d) as char
}

/// The decimal notation of `n`, without leading zeros.
pub open spec fn decimal(n: nat) -> Seq<char>
    decreases n,
{
    if n < 10 {
        seq![digit(n as int)]
    } else {
        decimal(n / 10).push(digit((n % 10) as int))
    }
}

/// The decimal notation of `n`.
pub fn decimal_text(n: u64) -> (r: String)
    ensures
        r@ == decimal(n as nat),
    decreases n,
{
    let d: u8 = 48 + (n % 10) as u8;
    if n < 10 {
        let mut s = String::new();
        s.push(d as char);
        assert(s@ =~= decimal(n as nat));
        s
    } else {
        let mut s = decimal_text(n / 10);
        s.push(d as char);
        s
    }
}

/// Where `c` first stands in `s`; its length if nowhere.
pub open spec fn first_at(s: Seq<char>, c: char) -> int
    decreases s.len(),
{
    if s.len() == 0 || s[0] == c {
        0
    } else {
        1 + first_at(s.drop_first(), c)
    }
}

/// The first place of `c` is the one before which it does not stand.
pub proof fn lemma_first_at(s: Seq<char>, c: char, i: int)
    requires
        0 <= i <= s.len(),
        forall|j: int| 0 <= j < i ==> s[j] != c,
        i == s.len() || s[i] == c,
    ensures
        first_at(s, c) == i,
    decreases s.len(),
{
    if i > 0 {
        let t = s.drop_first();
        assert forall|j: int| 0 <= j < i - 1 implies t[j] != c by {
            assert(t[j] == s[j + 1]);
        }
        lemma_first_at(t, c, i - 1);
    }
}

/// The part of `s` before the first `c`; all of it if there is none.
pub open spec fn before_first(s: Seq<char>, c: char) -> Seq<char> {
    s.take(first_at(s, c))
}

/// The part of `s` after the first `c`; nothing if there is none.
pub open spec fn after_first(s: Seq<char>, c: char) -> Seq<char> {
    if first_at(s, c) < s.len() {
        s.skip(first_at(s, c) + 1)
    } else {
        Seq::empty()
    }
}

/// Where `c` first stands in `cs`, from `from` on; its length if nowhere.
fn find_char(cs: &Vec<char>, c: char) -> (i: usize)
    ensures
        i == first_at(cs@, c),
        i <= cs@.len(),
        i < cs@.len() ==> cs@[i as int] == c,
{
    let mut i: usize = 0;
    while i < cs.len() && cs[i] != c
        invariant
            i <= cs@.len(),
            forall|j: int| 0 <= j < i ==> cs@[j] != c,
        decreases cs@.len() - i,
    {
        i = i + 1;
    }
    proof {
        lemma_first_at(cs@, c, i as int);
    }
    i
}

/// The parts of `s` before and after the first `c`.
pub fn split_first(s: &str, c: char) -> (r: (String, String))
    ensures
        r.0@ == before_first(s@, c),
        r.1@ == after_first(s@, c),
{
    let cs = chars_of(s);
    let i: usize = find_char(&cs, c);
    let head = string_of(&cs, 0, i);
    let tail = if i < cs.len() {
        string_of(&cs, i + 1, cs.len())
    } else {
        String::new()
    };
    assert(tail@ =~= after_first(s@, c));
    (head, tail)
}

/// The pieces of `s` between the `c`s in it.
pub open spec fn pieces(s: Seq<char>, c: char) -> Seq<Seq<char>>
    decreases s.len(),
{
    if s.len() == 0 {
        seq![Seq::empty()]
    } else {
        let rest = pieces(s.drop_last(), c);
        if s.last() == c {
            rest.push(Seq::empty())
        } else {
            rest.update(rest.len() - 1, rest.last().push(s.last()))
        }
    }
}

/// There is at least one piece.
pub proof fn lemma_some_piece(s: Seq<char>, c: char)
    ensures
        pieces(s, c).len() > 0,
    decreases s.len(),
{
    if s.len() > 0 {
        lemma_some_piece(s.drop_last(), c);
    }
}

/// The pieces of `s` between the `c`s in it.
pub fn split_text(s: &str, c: char) -> (r: Vec<String>)
    ensures
        views(r@) == pieces(s@, c),
{
    let cs = chars_of(s);
    let mut r: Vec<String> = Vec::new();
    let mut current = String::new();
    let mut i: usize = 0;
    assert(cs@.subrange(0, 0) =~= Seq::empty());
    assert(views(r@).push(current@) =~= pieces(cs@.subrange(0, 0), c));
    while i < cs.len()
        invariant
            i <= cs@.len(),
            views(r@).push(current@) == pieces(cs@.subrange(0, i as int), c),
        decreases cs@.len() - i,
    {
        let ghost before = views(r@);
        let ghost done = pieces(cs@.subrange(0, i as int), c);
        proof {
            let next = cs@.subrange(0, i + 1);
            assert(next.drop_last() =~= cs@.subrange(0, i as int));
            assert(next.last() == cs@[i as int]);
            assert(done.last() == current@);
            assert(done.drop_last() =~= before);
        }
        if cs[i] == c {
            let mut whole = String::new();
            std::mem::swap(&mut whole, &mut current);
            r.push(whole);
            assert(views(r@) =~= done);
        } else {
            current.push(cs[i]);
        }
        i = i + 1;
        assert(views(r@).push(current@) =~= pieces(cs@.subrange(0, i as int), c));
    }
    assert(cs@.subrange(0, cs@.len() as int) =~= cs@);
    let ghost before = views(r@);
    r.push(current);
    assert(views(r@) =~= before.push(current@));
    r
}

/// A text without `c` is one piece.
pub proof fn lemma_one_piece(s: Seq<char>, c: char)
    requires
        !s.contains(c),
    ensures
        pieces(s, c) == seq![s],
    decreases s.len(),
{
    if s.len() > 0 {
        assert(s.last() != c);
        assert forall|i: int| 0 <= i < s.drop_last().len() implies s.drop_last()[i] != c by {
            assert(s[i] != c);
        }
        lemma_one_piece(s.drop_last(), c);
        assert(s.drop_last().push(s.last()) =~= s);
    } else {
        assert(s =~= Seq::empty());
    }
    assert(pieces(s, c) =~= seq![s]);
}

/// A text without `c` after a `c` is one more piece.
pub proof fn lemma_last_piece(a: Seq<char>, b: Seq<char>, c: char)
    requires
        !b.contains(c),
    ensures
        pieces(a + seq![c] + b, c) == pieces(a, c).push(b),
    decreases b.len(),
{
    let whole = a + seq![c] + b;
    if b.len() == 0 {
        assert(whole.drop_last() =~= a);
        assert(whole.last() == c);
        assert(b =~= Seq::empty());
    } else {
        assert(whole.last() == b.last());
        assert(b.last() != c);
        assert forall|i: int| 0 <= i < b.drop_last().len() implies b.drop_last()[i] != c by {
            assert(b[i] != c);
        }
        lemma_last_piece(a, b.drop_last(), c);
        assert(whole.drop_last() =~= a + seq![c] + b.drop_last());
        assert(b.drop_last().push(b.last()) =~= b);
        assert(pieces(whole, c) =~= pieces(a, c).push(b));
    }
}

/// Texts with `c` between them.
pub open spec fn with_between(parts: Seq<Seq<char>>, c: char) -> Seq<char>
    decreases parts.len(),
{
    if parts.len() == 0 {
        Seq::empty()
    } else if parts.len() == 1 {
        parts[0]
    } else {
        with_between(parts.drop_last(), c) + seq![c] + parts.last()
    }
}

/// The texts with `c` between them.
pub fn join_texts(parts: &Vec<String>, c: char) -> (r: String)
    ensures
        r@ == with_between(views(parts@), c),
{
    let ghost all = views(parts@);
    let mut r = String::new();
    let mut i: usize = 0;
    assert(all.subrange(0, 0) =~= Seq::empty());
    while i < parts.len()
        invariant
            i <= parts@.len(),
            all == views(parts@),
            r@ == with_between(all.subrange(0, i as int), c),
        decreases parts@.len() - i,
    {
        proof {
            let next = all.subrange(0, i + 1);
            assert(next.drop_last() =~= all.subrange(0, i as int));
            assert(next.last() == parts@[i as int]@);
        }
        let ghost before = r@;
        if i > 0 {
            r.push(c);
        }
        r.append(parts[i].as_str());
        i = i + 1;
        assert(r@ =~= with_between(all.subrange(0, i as int), c));
    }
    assert(all.subrange(0, all.len() as int) =~= all);
    r
}

/// Cutting joined texts up gives them back, if there are some and none of them
/// holds the separator.
pub proof fn pieces_of_joined(parts: Seq<Seq<char>>, c: char)
    requires
        parts.len() > 0,
        forall|i: int| 0 <= i < parts.len() ==> !(#[trigger] parts[i]).contains(c),
    ensures
        pieces(with_between(parts, c), c) == parts,
    decreases parts.len(),
{
    if parts.len() == 1 {
        lemma_one_piece(parts[0], c);
        assert(parts =~= seq![parts[0]]);
    } else {
        let rest = parts.drop_last();
        assert forall|i: int| 0 <= i < rest.len() implies !(#[trigger] rest[i]).contains(c) by {
            assert(rest[i] == parts[i]);
        }
        pieces_of_joined(rest, c);
        assert(!parts[parts.len() - 1].contains(c));
        lemma_last_piece(with_between(rest, c), parts.last(), c);
        assert(rest.push(parts.last()) =~= parts);
    }
}

/// The text without a prefix.
pub fn strip_prefix(s: &str, prefix: &str) -> (r: Option<String>)
    ensures
        match r {
            Some(t) => prefix@.is_prefix_of(s@) && t@ == s@.skip(prefix@.len() as int),
            None => !prefix@.is_prefix_of(s@),
        },
{
    let cs = chars_of(s);
    let ps = chars_of(prefix);
    if cs.len() < ps.len() {
        return None;
    }
    let mut i: usize = 0;
    while i < ps.len()
        invariant
            i <= ps@.len() <= cs@.len(),
            cs@ == s@,
            ps@ == prefix@,
            forall|j: int| 0 <= j < i ==> cs@[j] == ps@[j],
        decreases ps@.len() - i,
    {
        if cs[i] != ps[i] {
            assert(s@.subrange(0, prefix@.len() as int)[i as int] != prefix@[i as int]);
            return None;
        }
        i = i + 1;
    }
    assert(prefix@ =~= s@.subrange(0, prefix@.len() as int));
    Some(string_of(&cs, ps.len(), cs.len()))
}

/// `part` stands in `s` at `i`.
pub open spec fn stands_at(s: Seq<char>, part: Seq<char>, i: int) -> bool {
    0 <= i && i + part.len() <= s.len() && s.subrange(i, i + part.len()) == part
}

/// `part` stands somewhere in `s`.
pub open spec fn has_part(s: Seq<char>, part: Seq<char>) -> bool {
    exists|i: int| #[trigger] stands_at(s, part, i)
}

/// Decides [`has_part`].
pub fn contains_text(s: &str, part: &str) -> (r: bool)
    ensures
        r == has_part(s@, part@),
{
    let cs = chars_of(s);
    let ps = chars_of(part);
    if ps.len() > cs.len() {
        return false;
    }
    let last: usize = cs.len() - ps.len();
    let mut i: usize = 0;
    while i <= last
        invariant
            i <= last + 1,
            last + ps@.len() == cs@.len(),
            cs@ == s@,
            ps@ == part@,
            cs@.len() <= usize::MAX,
            forall|j: int| 0 <= j < i ==> !#[trigger] stands_at(s@, part@, j),
        decreases last + 1 - i,
    {
        let mut k: usize = 0;
        while k < ps.len() && cs[i + k] == ps[k]
            invariant
                i <= last,
                k <= ps@.len(),
                last + ps@.len() == cs@.len(),
                cs@.len() <= usize::MAX,
                forall|j: int| 0 <= j < k ==> cs@[i + j] == ps@[j],
            decreases ps@.len() - k,
        {
            k = k + 1;
        }
        if k == ps.len() {
            assert(s@.subrange(i as int, i + part@.len()) =~= part@);
            assert(stands_at(s@, part@, i as int));
            return true;
        }
        assert(s@.subrange(i as int, i + part@.len())[k as int] != part@[k as int]);
        if i == last {
            assert forall|j: int| !#[trigger] stands_at(s@, part@, j) by {}
            return false;
        }
        i = i + 1;
    }
    false
}

/// The number that decimal digits write.
pub open spec fn number(digits: Seq<char>) -> nat
    decreases digits.len(),
{
    if digits.len() == 0 {
        0
    } else {
        number(digits.drop_last()) * 10 + (digits.last() as int - '0' as int) as nat
    }
}

/// Decimal digits, at least one.
pub open spec fn is_number(s: Seq<char>) -> bool {
    s.len() > 0 && forall|i: int| 0 <= i < s.len() ==> '0' <= #[trigger] s[i] <= '9'
}

/// The number that a text writes in decimal, up to `max`.
pub open spec fn number_up_to(s: Seq<char>, max: nat) -> Option<nat> {
    if is_number(s) && number(s) <= max {
        Some(number(s))
    } else {
        None
    }
}

proof fn lemma_number_grows(s: Seq<char>, i: int)
    requires
        is_number(s),
        0 <= i <= s.len(),
    ensures
        number(s.take(i)) <= number(s),
    decreases s.len() - i,
{
    if i < s.len() {
        let next = s.take(i + 1);
        assert(next.drop_last() =~= s.take(i));
        assert('0' <= s[i] <= '9');
        lemma_number_grows(s, i + 1);
    } else {
        assert(s.take(i) =~= s);
    }
}

/// The number that the characters from `from` up to `to` write in decimal, up to
/// `max`.
pub fn parse_number(cs: &Vec<char>, from: usize, to: usize, max: u32) -> (r: Option<u32>)
    requires
        from <= to <= cs@.len(),
    ensures
        match r {
            Some(n) => number_up_to(cs@.subrange(from as int, to as int), max as nat) == Some(n as nat),
            None => number_up_to(cs@.subrange(from as int, to as int), max as nat) is None,
        },
{
    let ghost s = cs@.subrange(from as int, to as int);
    if from == to {
        return None;
    }
    let mut n: u64 = 0;
    let mut i: usize = from;
    assert(s.take(0) =~= Seq::empty());
    while i < to
        invariant
            from <= i <= to <= cs@.len(),
            from < to,
            s == cs@.subrange(from as int, to as int),
            n == number(s.take(i - from)),
            n <= max,
            forall|j: int| 0 <= j < i - from ==> '0' <= #[trigger] s[j] <= '9',
        decreases to - i,
    {
        let c = cs[i];
        assert(s[i - from] == c);
        if c < '0' || c > '9' {
            return None;
        }
        let d: u64 = (c as u32 - 48) as u64;
        proof {
            let next = s.take(i + 1 - from);
            assert(next.drop_last() =~= s.take(i - from));
            assert(next.last() == c);
        }
        n = n * 10 + d;
        i = i + 1;
        if n > max as u64 {
            proof {
                if is_number(s) {
                    lemma_number_grows(s, i - from);
                }
            }
            return None;
        }
    }
    assert(s.take(to - from) =~= s);
    Some(n as u32)
}

/// Trimming takes white space off both ends, all of it, and nothing else.
pub proof fn trimming_takes_only_space(s: Seq<char>)
    ensures
        trimmed(s).len() > 0 ==> !white_space(trimmed(s)[0]) && !white_space(trimmed(s).last()),
        exists|a: int|
            {
                &&& 0 <= a <= a + trimmed(s).len() <= s.len()
                &&& #[trigger] s.subrange(a, a + trimmed(s).len()) == trimmed(s)
                &&& forall|i: int| 0 <= i < a ==> white_space(#[trigger] s[i])
                &&& forall|i: int| a + trimmed(s).len() <= i < s.len() ==> white_space(#[trigger] s[i])
            },
{
    let t = trim_start(s);
    let u = trimmed(s);
    lemma_trim_start_cuts(s);
    lemma_trim_end_cuts(t);
    lemma_trim_start_settles(s);
    lemma_trim_end_keeps_start(t);
    let a = s.len() - t.len();
    assert(s.subrange(a, a + u.len()) =~= u) by {
        assert(u =~= t.take(u.len() as int));
        assert(t =~= s.skip(a));
    }
    assert forall|i: int| a + u.len() <= i < s.len() implies white_space(#[trigger] s[i]) by {
        assert(t[i - a] == s[i]);
    }
    if u.len() > 0 {
        assert(u[0] == t[0]);
    }
}

proof fn lemma_trim_start_cuts(s: Seq<char>)
    ensures
        trim_start(s).len() <= s.len(),
        trim_start(s) == s.skip(s.len() - trim_start(s).len()),
        forall|i: int| 0 <= i < s.len() - trim_start(s).len() ==> white_space(#[trigger] s[i]),
    decreases s.len(),
{
    let t = trim_start(s);
    if s.len() > 0 && white_space(s[0]) {
        let rest = s.drop_first();
        lemma_trim_start_cuts(rest);
        assert(t =~= s.skip(s.len() - t.len()));
        assert forall|i: int| 0 <= i < s.len() - t.len() implies white_space(#[trigger] s[i]) by {
            if i > 0 {
                assert(rest[i - 1] == s[i]);
            }
        }
    } else {
        assert(s.skip(0) =~= s);
    }
}

proof fn lemma_trim_end_cuts(s: Seq<char>)
    ensures
        trim_end(s).len() <= s.len(),
        trim_end(s).len() > 0 ==> !white_space(trim_end(s).last()),
        forall|i: int| trim_end(s).len() <= i < s.len() ==> white_space(#[trigger] s[i]),
    decreases s.len(),
{
    if s.len() > 0 && white_space(s.last()) {
        let rest = s.drop_last();
        lemma_trim_end_cuts(rest);
        assert forall|i: int| trim_end(s).len() <= i < s.len() implies white_space(#[trigger] s[i]) by {
            if i < rest.len() {
                assert(rest[i] == s[i]);
            }
        }
    }
}

/// A text without space around it and without CR is its own canonical form, and no
/// canonical form holds a CR.
pub proof fn plain_text_is_canonical(s: Seq<char>)
    ensures
        !canonical(s).contains('\r'),
        !s.contains('\r') && (s.len() > 0 ==> !white_space(s[0]) && !white_space(s.last()))
            ==> canonical(s) == s,
        !s.contains('\r') ==> canonical(s) == trimmed(s),
{
    lemma_unix_lines_free(trimmed(s));
    if !s.contains('\r') {
        lemma_unix_lines_keep(s);
        trimming_commutes(s);
    }
}

/// A number is written with digits and reads back as itself.
pub proof fn decimal_reads_back(n: nat)
    ensures
        is_number(decimal(n)),
        number(decimal(n)) == n,
    decreases n,
{
    reveal_with_fuel(number, 2);
    if n >= 10 {
        decimal_reads_back(n / 10);
        let front = decimal(n / 10);
        assert(decimal(n).drop_last() =~= front);
        assert forall|i: int| 0 <= i < decimal(n).len() implies '0' <= #[trigger] decimal(n)[i]
            <= '9' by {
            if i < front.len() {
                assert(decimal(n)[i] == front[i]);
            }
        }
    } else {
        assert(decimal(n).drop_last() =~= Seq::empty());
    }
}

/// Cutting a text at the first `c` loses nothing but that `c`.
pub proof fn cutting_loses_nothing(s: Seq<char>, c: char)
    ensures
        !before_first(s, c).contains(c),
        s.contains(c) ==> before_first(s, c) + seq![c] + after_first(s, c) == s,
        !s.contains(c) ==> before_first(s, c) == s && after_first(s, c).len() == 0,
{
    let i = first_at(s, c);
    lemma_first_at_bounds(s, c);
    assert forall|j: int| 0 <= j < before_first(s, c).len() implies before_first(s, c)[j] != c by {
        assert(s[j] != c);
    }
    if i < s.len() {
        assert(s[i] == c);
        assert(before_first(s, c) + seq![c] + after_first(s, c) =~= s);
    } else {
        assert(before_first(s, c) =~= s);
    }
}

proof fn lemma_first_at_bounds(s: Seq<char>, c: char)
    ensures
        0 <= first_at(s, c) <= s.len(),
        forall|j: int| 0 <= j < first_at(s, c) ==> #[trigger] s[j] != c,
        first_at(s, c) < s.len() ==> s[first_at(s, c)] == c,
    decreases s.len(),
{
    if s.len() > 0 && s[0] != c {
        let rest = s.drop_first();
        lemma_first_at_bounds(rest, c);
        assert forall|j: int| 0 <= j < first_at(s, c) implies #[trigger] s[j] != c by {
            if j > 0 {
                assert(rest[j - 1] == s[j]);
            }
        }
        if first_at(s, c) < s.len() {
            assert(rest[first_at(rest, c)] == s[first_at(s, c)]);
        }
    }
}

/// Joining the pieces of a text gives the text back.
pub proof fn joined_pieces_are_the_text(s: Seq<char>, c: char)
    ensures
        with_between(pieces(s, c), c) == s,
        forall|i: int| 0 <= i < pieces(s, c).len() ==> !(#[trigger] pieces(s, c)[i]).contains(c),
    decreases s.len(),
{
    let all = pieces(s, c);
    if s.len() == 0 {
        assert(with_between(all, c) =~= s);
    } else {
        let short = s.drop_last();
        let rest = pieces(short, c);
        joined_pieces_are_the_text(short, c);
        lemma_some_piece(short, c);
        assert(s =~= short.push(s.last()));
        if s.last() == c {
            assert(all.drop_last() =~= rest);
            assert(with_between(all, c) =~= with_between(rest, c) + seq![c]);
            assert forall|i: int| 0 <= i < all.len() implies !(#[trigger] all[i]).contains(c) by {
                if i < rest.len() {
                    assert(all[i] == rest[i]);
                }
            }
        } else {
            let last = rest.last().push(s.last());
            assert(all.drop_last() =~= rest.drop_last());
            assert(all.last() == last);
            assert(with_between(all, c) =~= with_between(rest, c).push(s.last()));
            assert forall|i: int| 0 <= i < all.len() implies !(#[trigger] all[i]).contains(c) by {
                if i < rest.len() - 1 {
                    assert(all[i] == rest[i]);
                } else {
                    assert(!rest[rest.len() - 1].contains(c));
                    assert forall|j: int| 0 <= j < last.len() implies last[j] != c by {
                        if j < rest.last().len() {
                            assert(rest.last()[j] != c);
                        }
                    }
                }
            }
        }
        assert(with_between(all, c) =~= s);
    }
}

} // verus!
