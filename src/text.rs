//! Character-level helpers: decimal rendering, whitespace and trimming,
//! splitting file contents into lines and joining lines back.
use vstd::prelude::*;

verus! {

/// The ten decimal digit characters, by value.
pub open spec fn digits() -> Seq<char> {
    seq!['0', '1', '2', '3', '4', '5', '6', '7', '8', '9']
}

/// The decimal form of `n`, without sign or leading zeros.
pub open spec fn decimal(n: nat) -> Seq<char>
    decreases n,
{
    if n < 10 {
        seq![digits()[n as int]]
    } else {
        decimal(n / 10).push(digits()[(n % 10) as int])
    }
}

/// Relies on String::push: appends one character at the end.
#[verifier::external_body]
pub(crate) fn push_char(s: &mut String, c: char)
    ensures
        final(s)@ == old(s)@.push(c),
{
    s.push(c)
}

fn digit_char(d: usize) -> (c: char)
    requires
        d < 10,
    ensures
        c == digits()[d as int],
{
    match d {
        0 => '0',
        1 => '1',
        2 => '2',
        3 => '3',
        4 => '4',
        5 => '5',
        6 => '6',
        7 => '7',
        8 => '8',
        _ => '9',
    }
}

/// Appends the decimal form of `n` to `s`.
pub fn push_decimal(s: &mut String, n: usize)
    ensures
        final(s)@ == old(s)@ + decimal(n as nat),
    decreases n,
{
    if n >= 10 {
        push_decimal(s, n / 10);
    }
    push_char(s, digit_char(n % 10));
    assert(final(s)@ =~= old(s)@ + decimal(n as nat));
}

/// The decimal form of `n` as a new string.
pub fn to_decimal(n: usize) -> (r: String)
    ensures
        r@ == decimal(n as nat),
{
    let mut s = String::new();
    push_decimal(&mut s, n);
    assert(s@ =~= decimal(n as nat));
    s
}

/// The characters that Unicode gives the White_Space property.
pub open spec fn is_space(c: char) -> bool {
    let u = c as u32;
    (9 <= u && u <= 13) || u == 32 || u == 0x85 || u == 0xA0 || u == 0x1680 || (0x2000 <= u
        && u <= 0x200A) || u == 0x2028 || u == 0x2029 || u == 0x202F || u == 0x205F || u == 0x3000
}

/// A text is blank when every character in it is whitespace.
pub open spec fn blank(s: Seq<char>) -> bool {
    forall|i: int| 0 <= i < s.len() ==> is_space(#[trigger] s[i])
}

/// `s` with its leading whitespace removed.
pub open spec fn trim_start(s: Seq<char>) -> Seq<char>
    decreases s.len(),
{
    if s.len() > 0 && is_space(s[0]) {
        trim_start(s.drop_first())
    } else {
        s
    }
}

/// `s` with its trailing whitespace removed.
pub open spec fn trim_end(s: Seq<char>) -> Seq<char>
    decreases s.len(),
{
    if s.len() > 0 && is_space(s.last()) {
        trim_end(s.drop_last())
    } else {
        s
    }
}

/// `s` with whitespace removed at both ends.
pub open spec fn trim(s: Seq<char>) -> Seq<char> {
    trim_end(trim_start(s))
}

pub fn is_space_char(c: char) -> (r: bool)
    ensures
        r == is_space(c),
{
    let u = c as u32;
    (9 <= u && u <= 13) || u == 32 || u == 0x85 || u == 0xA0 || u == 0x1680 || (0x2000 <= u && u
        <= 0x200A) || u == 0x2028 || u == 0x2029 || u == 0x202F || u == 0x205F || u == 0x3000
}

/// Whether `s` holds whitespace only (the empty text included).
pub fn is_blank(s: &str) -> (r: bool)
    ensures
        r == blank(s@),
{
    let n = s.unicode_len();
    let mut i: usize = 0;
    while i < n
        invariant
            n == s@.len(),
            i <= n,
            forall|j: int| 0 <= j < i ==> is_space(#[trigger] s@[j]),
        decreases n - i,
    {
        if !is_space_char(s.get_char(i)) {
            return false;
        }
        i = i + 1;
    }
    true
}

/// `s` with the whitespace at both of its ends removed.
pub fn trimmed(s: &str) -> (r: String)
    ensures
        r@ == trim(s@),
{
    let n = s.unicode_len();
    let mut lo: usize = 0;
    assert(s@.skip(0) =~= s@);
    while lo < n && is_space_char(s.get_char(lo))
        invariant
            n == s@.len(),
            lo <= n,
            trim_start(s@) == trim_start(s@.skip(lo as int)),
        decreases n - lo,
    {
        assert(s@.skip(lo as int).drop_first() =~= s@.skip(lo + 1));
        lo = lo + 1;
    }
    assert(trim_start(s@) == s@.subrange(lo as int, n as int)) by {
        assert(s@.skip(lo as int) =~= s@.subrange(lo as int, n as int));
    }
    let mut hi: usize = n;
    assert(trim(s@) == trim_end(s@.subrange(lo as int, hi as int)));
    while hi > lo && is_space_char(s.get_char(hi - 1))
        invariant
            n == s@.len(),
            lo <= hi <= n,
            trim(s@) == trim_end(s@.subrange(lo as int, hi as int)),
        decreases hi - lo,
    {
        assert(s@.subrange(lo as int, hi as int).drop_last() =~= s@.subrange(lo as int, hi - 1));
        hi = hi - 1;
    }
    String::from_str(s.substring_char(lo, hi))
}

/// The lines of a file, joined back: each followed by a line feed.
pub open spec fn render(ls: Seq<Seq<char>>) -> Seq<char>
    decreases ls.len(),
{
    if ls.len() == 0 {
        Seq::empty()
    } else {
        render(ls.drop_last()) + ls.last() + seq!['\n']
    }
}

/// Whether `l` ends with a carriage return.
pub open spec fn ends_cr(l: Seq<char>) -> bool {
    l.len() > 0 && l.last() == '\r'
}

/// `l` without the carriage return it ends with, if any.
pub open spec fn strip_cr(l: Seq<char>) -> Seq<char> {
    if ends_cr(l) {
        l.drop_last()
    } else {
        l
    }
}

/// Reading `s` from the left: the lines closed by a line end so far, and
/// the characters of the line still open. A line end is a line feed, with
/// the carriage return before it, if any.
pub open spec fn scan(s: Seq<char>) -> (Seq<Seq<char>>, Seq<char>)
    decreases s.len(),
{
    if s.len() == 0 {
        (Seq::empty(), Seq::empty())
    } else {
        let (ls, cur) = scan(s.drop_last());
        if s.last() == '\n' {
            (ls.push(strip_cr(cur)), Seq::empty())
        } else {
            (ls, cur.push(s.last()))
        }
    }
}

/// The lines of file contents `s`: split at each `"\n"` or `"\r\n"`; a last
/// line without a line end counts, an empty one after the last line end does
/// not.
pub open spec fn parse(s: Seq<char>) -> Seq<Seq<char>> {
    let (ls, cur) = scan(s);
    if cur.len() == 0 {
        ls
    } else {
        ls.push(cur)
    }
}

/// A text that holds no line feed.
pub open spec fn no_feed(l: Seq<char>) -> bool {
    !l.contains('\n')
}

/// No line of `ls` holds a line feed.
pub open spec fn no_feeds(ls: Seq<Seq<char>>) -> bool {
    forall|i: int| 0 <= i < ls.len() ==> no_feed(#[trigger] ls[i])
}

/// A line that reads back as itself once written with a line feed: it holds
/// no line feed and does not end with a carriage return.
pub open spec fn one_line(l: Seq<char>) -> bool {
    no_feed(l) && !ends_cr(l)
}

/// Every line of `ls` reads back as itself.
pub open spec fn all_lines(ls: Seq<Seq<char>>) -> bool {
    forall|i: int| 0 <= i < ls.len() ==> one_line(#[trigger] ls[i])
}

/// The string values of a list of strings.
pub open spec fn views(v: Seq<String>) -> Seq<Seq<char>> {
    v.map_values(|s: String| s@)
}

/// Appends `l` and a line feed to `s`.
pub fn push_line(s: &mut String, l: &str)
    ensures
        final(s)@ == old(s)@ + l@ + seq!['\n'],
{
    s.append(l);
    push_char(s, '\n');
}

/// The lines of file contents `s`, in order.
pub fn split_lines(s: &str) -> (r: Vec<String>)
    ensures
        views(r@) == parse(s@),
{
    let mut lines: Vec<String> = Vec::new();
    let mut cur = String::new();
    // A carriage return just read, held back until it is known whether a
    // line feed follows it.
    let mut held_cr = false;
    for c in it: s.chars()
        invariant
            it.seq() == s@,
            views(lines@) == scan(s@.take(it.index() as int)).0,
            held_cr ==> cur@.push('\r') == scan(s@.take(it.index() as int)).1,
            !held_cr ==> cur@ == scan(s@.take(it.index() as int)).1,
            !held_cr ==> !ends_cr(cur@),
    {
        let ghost k = it.index() as int;
        assert(s@.take(k + 1).drop_last() =~= s@.take(k));
        assert(s@.take(k + 1).last() == c);
        if c == '\n' {
            assert(cur@.push('\r').drop_last() =~= cur@);
            lines.push(cur);
            assert(views(lines@) =~= scan(s@.take(k)).0.push(strip_cr(scan(s@.take(k)).1)));
            cur = String::new();
            held_cr = false;
        } else {
            if held_cr {
                push_char(&mut cur, '\r');
            }
            if c == '\r' {
                held_cr = true;
            } else {
                push_char(&mut cur, c);
                held_cr = false;
            }
        }
    }
    assert(s@.take(s@.len() as int) =~= s@);
    if held_cr {
        push_char(&mut cur, '\r');
    }
    if !cur.as_str().is_empty() {
        lines.push(cur);
        assert(views(lines@) =~= scan(s@).0.push(scan(s@).1));
    }
    lines
}

proof fn lemma_scan_open_line(p: Seq<char>, x: Seq<char>)
    requires
        no_feed(x),
    ensures
        scan(p + x) == (scan(p).0, scan(p).1 + x),
    decreases x.len(),
{
    if x.len() == 0 {
        assert(p + x =~= p);
        assert(scan(p).1 + x =~= scan(p).1);
    } else {
        let y = x.drop_last();
        assert(!y.contains('\n')) by {
            if y.contains('\n') {
                let i = choose|i: int| 0 <= i < y.len() && y[i] == '\n';
                assert(x[i] == '\n');
            }
        }
        lemma_scan_open_line(p, y);
        assert((p + x).drop_last() =~= p + y);
        assert(x.last() != '\n') by {
            if x.last() == '\n' {
                assert(x[x.len() - 1] == '\n');
            }
        }
        assert(scan(p).1 + y.push(x.last()) =~= scan(p).1 + x);
    }
}

proof fn lemma_scan_render(ls: Seq<Seq<char>>)
    requires
        all_lines(ls),
    ensures
        scan(render(ls)) == (ls, Seq::<char>::empty()),
    decreases ls.len(),
{
    if ls.len() > 0 {
        let front = ls.drop_last();
        assert(all_lines(front)) by {
            assert forall|i: int| 0 <= i < front.len() implies one_line(#[trigger] front[i]) by {
                assert(one_line(ls[i]));
            }
        }
        lemma_scan_render(front);
        assert(one_line(ls[ls.len() - 1]));
        lemma_scan_open_line(render(front), ls.last());
        let r = render(ls);
        assert(r.drop_last() =~= render(front) + ls.last());
        assert(Seq::<char>::empty() + ls.last() =~= ls.last());
        assert(strip_cr(ls.last()) == ls.last());
        assert(front.push(ls.last()) =~= ls);
    }
}

proof fn lemma_scan_lines(s: Seq<char>)
    ensures
        no_feeds(scan(s).0),
        no_feed(scan(s).1),
    decreases s.len(),
{
    if s.len() > 0 {
        lemma_scan_lines(s.drop_last());
        let (ls, cur) = scan(s.drop_last());
        if s.last() == '\n' {
            assert(no_feed(strip_cr(cur))) by {
                if strip_cr(cur).contains('\n') {
                    let i = choose|i: int|
                        0 <= i < strip_cr(cur).len() && strip_cr(cur)[i] == '\n';
                    assert(cur[i] == '\n');
                }
            }
            let next = ls.push(strip_cr(cur));
            assert(no_feeds(next)) by {
                assert forall|i: int| 0 <= i < next.len() implies no_feed(#[trigger] next[i]) by {
                    if i < ls.len() {
                        assert(no_feed(ls[i]));
                    }
                }
            }
            assert(!Seq::<char>::empty().contains('\n'));
        } else {
            assert(!cur.push(s.last()).contains('\n')) by {
                if cur.push(s.last()).contains('\n') {
                    let i = choose|i: int|
                        0 <= i < cur.push(s.last()).len() && cur.push(s.last())[i] == '\n';
                    if i < cur.len() {
                        assert(cur[i] == '\n');
                    }
                }
            }
        }
    }
}

/// No line read from file contents holds a line feed.
pub proof fn lemma_parse_lines(s: Seq<char>)
    ensures
        no_feeds(parse(s)),
{
    lemma_scan_lines(s);
    let (ls, cur) = scan(s);
    if cur.len() > 0 {
        assert forall|i: int| 0 <= i < ls.push(cur).len() implies no_feed(
            #[trigger] ls.push(cur)[i],
        ) by {
            if i < ls.len() {
                assert(no_feed(ls[i]));
            }
        }
    }
}

/// Reading back what `render` wrote gives the same lines, when none of them
/// holds a line feed or ends with a carriage return.
pub proof fn lemma_parse_render(ls: Seq<Seq<char>>)
    requires
        all_lines(ls),
    ensures
        parse(render(ls)) == ls,
{
    lemma_scan_render(ls);
}

/// What `render` writes of one more line.
pub proof fn lemma_render_push(ls: Seq<Seq<char>>, l: Seq<char>)
    ensures
        render(ls.push(l)) == render(ls) + l + seq!['\n'],
{
    assert(ls.push(l).drop_last() =~= ls);
}

} // verus!
