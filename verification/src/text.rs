//! Character-level helpers behind the renderer: full stops, trimming,
//! indentation and the two scans that look for a pronunciation already written.
//!
//! Every function is stated over `Seq<char>`, the view of `str` and `String`.

use vstd::prelude::*;

verus! {

/// Whether `c` has the Unicode property `White_Space`: the space, the controls
/// from tab to carriage return, next line, the no-break spaces, the Ogham space
/// mark, the spaces of fixed width, the line and paragraph separators, the
/// mathematical space, the ideographic space.
pub open spec fn white_space(c: char) -> bool {
    let n = c as u32;
    ||| 0x09 <= n <= 0x0d
    ||| n == 0x20
    ||| n == 0x85
    ||| n == 0xa0
    ||| n == 0x1680
    ||| 0x2000 <= n <= 0x200a
    ||| n == 0x2028
    ||| n == 0x2029
    ||| n == 0x202f
    ||| n == 0x205f
    ||| n == 0x3000
}

/// Tells whether `c` is white space, as `char::is_whitespace` does.
pub fn is_whitespace(c: char) -> (r: bool)
    ensures
        r == white_space(c),
{
    let n: u32 = c as u32;
    (0x09 <= n && n <= 0x0d) || n == 0x20 || n == 0x85 || n == 0xa0 || n == 0x1680 || (0x2000 <= n
        && n <= 0x200a) || n == 0x2028 || n == 0x2029 || n == 0x202f || n == 0x205f || n
        == 0x3000
}

/// `String::push`: the character is appended and nothing else changes.
#[verifier::external_body]
pub(crate) fn push_char(s: &mut String, c: char)
    ensures
        final(s)@ == old(s)@.push(c),
{
    s.push(c);
}

/// Whether the last character of `s` is a full stop.
pub open spec fn ends_with_full_stop(s: Seq<char>) -> bool {
    s.len() > 0 && s.last() == '.'
}

/// `s`, closed by a full stop unless it already ends in one.
pub open spec fn with_full_stop(s: Seq<char>) -> Seq<char> {
    if ends_with_full_stop(s) {
        s
    } else {
        s.push('.')
    }
}

/// `s` without its leading white space.
pub open spec fn trim_start_of(s: Seq<char>) -> Seq<char>
    decreases s.len(),
{
    if s.len() > 0 && white_space(s[0]) {
        trim_start_of(s.drop_first())
    } else {
        s
    }
}

/// `s` without its trailing white space.
pub open spec fn trim_end_of(s: Seq<char>) -> Seq<char>
    decreases s.len(),
{
    if s.len() > 0 && white_space(s.last()) {
        trim_end_of(s.drop_last())
    } else {
        s
    }
}

/// `s` without leading and trailing white space.
pub open spec fn trimmed(s: Seq<char>) -> Seq<char> {
    trim_end_of(trim_start_of(s))
}

/// `s` between double quotes.
pub open spec fn quoted(s: Seq<char>) -> Seq<char> {
    seq!['"'] + s + seq!['"']
}

/// One indent unit: what follows every line feed of an indented block.
pub open spec fn indent_unit() -> Seq<char> {
    seq![' ', ' ']
}

/// `s` with one indent unit inserted after each of its line feeds.
pub open spec fn indented(s: Seq<char>) -> Seq<char>
    decreases s.len(),
{
    if s.len() == 0 {
        s
    } else if s.last() == '\n' {
        indented(s.drop_last()).push('\n') + indent_unit()
    } else {
        indented(s.drop_last()).push(s.last())
    }
}

/// `s` without its last two characters (without all of them where it has fewer).
pub open spec fn without_last_two(s: Seq<char>) -> Seq<char> {
    if s.len() >= 2 {
        s.take(s.len() - 2)
    } else {
        Seq::empty()
    }
}

/// The bullet that opens a sense in the text target.
pub open spec fn bullet() -> Seq<char> {
    seq!['-', ' ']
}

/// A sense's block in the text target: its body indented one unit, the last two
/// characters taken off (the indent that follows the closing line feed), behind a bullet.
pub open spec fn bullet_block(body: Seq<char>) -> Seq<char> {
    bullet() + without_last_two(indented(body))
}

/// Whether `s` is made of whole lines: it is empty or ends with a line feed.
pub open spec fn whole_lines(s: Seq<char>) -> bool {
    s.len() == 0 || s.last() == '\n'
}

/// The whole lines of `block`, each one indent unit deeper.
pub open spec fn shifted(block: Seq<char>) -> Seq<char> {
    if block.len() == 0 {
        block
    } else {
        indent_unit() + without_last_two(indented(block))
    }
}

/// Whether a `/` stands in the first line of `s`, that is, before any line feed.
pub open spec fn slash_in_first_line(s: Seq<char>) -> bool {
    exists|p: int|
        0 <= p < s.len() && #[trigger] s[p] == '/' && forall|j: int|
            0 <= j < p ==> #[trigger] s[j] != '\n'
}

/// Whether `</p>` stands in `s` at position `k`.
pub open spec fn closes_at(s: Seq<char>, k: int) -> bool {
    &&& 0 <= k
    &&& k + 4 <= s.len()
    &&& s[k] == '<'
    &&& s[k + 1] == '/'
    &&& s[k + 2] == 'p'
    &&& s[k + 3] == '>'
}

/// Whether a `/` stands in `s` before the first `</p>` (anywhere, where `s` holds no `</p>`).
pub open spec fn slash_in_html_head(s: Seq<char>) -> bool {
    exists|p: int|
        0 <= p < s.len() && #[trigger] s[p] == '/' && forall|k: int|
            0 <= k < p ==> !#[trigger] closes_at(s, k)
}

/// The characters of `s`, one by one.
pub fn chars_of(s: &str) -> (v: Vec<char>)
    ensures
        v@ == s@,
{
    let mut v: Vec<char> = Vec::new();
    for c in it: s.chars()
        invariant
            it.seq() == s@,
            v@ == s@.take(it.index()),
    {
        v.push(c);
    }
    v
}

/// Appends `v[from..to]` to `out`.
pub fn push_chars(out: &mut String, v: &Vec<char>, from: usize, to: usize)
    requires
        from <= to <= v.len(),
    ensures
        final(out)@ == old(out)@ + v@.subrange(from as int, to as int),
{
    let mut i: usize = from;
    while i < to
        invariant
            from <= i <= to <= v.len(),
            out@ == old(out)@ + v@.subrange(from as int, i as int),
        decreases to - i,
    {
        push_char(out, v[i]);
        i += 1;
    }
}

/// Tells whether `s` ends with a full stop.
pub fn has_full_stop(s: &str) -> (r: bool)
    ensures
        r == ends_with_full_stop(s@),
{
    let mut last: Option<char> = None;
    for c in it: s.chars()
        invariant
            it.seq() == s@,
            last == if it.index() == 0 {
                None
            } else {
                Some(s@[it.index() - 1])
            },
    {
        last = Some(c);
    }
    match last {
        Some(c) => c == '.',
        None => false,
    }
}

/// Appends `s` to `out`, and a full stop where `s` does not end in one.
pub fn push_sentence(out: &mut String, s: &str)
    ensures
        final(out)@ == old(out)@ + with_full_stop(s@),
{
    out.append(s);
    if !has_full_stop(s) {
        push_char(out, '.');
    }
}

proof fn lemma_trim_start_skip(s: Seq<char>, a: int)
    requires
        0 <= a <= s.len(),
        forall|j: int| 0 <= j < a ==> white_space(#[trigger] s[j]),
    ensures
        trim_start_of(s) == trim_start_of(s.skip(a)),
    decreases a,
{
    if a > 0 {
        assert(s.drop_first().skip(a - 1) == s.skip(a));
        lemma_trim_start_skip(s.drop_first(), a - 1);
    } else {
        assert(s.skip(0) == s);
    }
}

proof fn lemma_trim_end_take(s: Seq<char>, b: int)
    requires
        0 <= b <= s.len(),
        forall|j: int| b <= j < s.len() ==> white_space(#[trigger] s[j]),
    ensures
        trim_end_of(s) == trim_end_of(s.take(b)),
    decreases s.len() - b,
{
    if b < s.len() {
        assert(s.drop_last().take(b) == s.take(b));
        lemma_trim_end_take(s.drop_last(), b);
    } else {
        assert(s.take(b) == s);
    }
}

/// A copy of `s` without leading and trailing white space.
pub fn trim(s: &str) -> (r: String)
    ensures
        r@ == trimmed(s@),
{
    let v = chars_of(s);
    let mut a: usize = 0;
    while a < v.len() && is_whitespace(v[a])
        invariant
            a <= v.len(),
            forall|j: int| 0 <= j < a ==> white_space(#[trigger] v@[j]),
        decreases v.len() - a,
    {
        a += 1;
    }
    let mut b: usize = v.len();
    while b > a && is_whitespace(v[b - 1])
        invariant
            a <= b <= v.len(),
            forall|j: int| b <= j < v.len() ==> white_space(#[trigger] v@[j]),
        decreases b,
    {
        b -= 1;
    }
    let mut r = String::new();
    push_chars(&mut r, &v, a, b);
    proof {
        let rest = v@.skip(a as int);
        lemma_trim_start_skip(v@, a as int);
        assert(trim_start_of(rest) == rest);
        assert forall|j: int| b - a <= j < rest.len() implies white_space(#[trigger] rest[j]) by {
            assert(rest[j] == v@[a + j]);
        }
        lemma_trim_end_take(rest, b - a);
        assert(rest.take(b - a) == v@.subrange(a as int, b as int));
        assert(trim_end_of(rest.take(b - a)) == rest.take(b - a)) by {
            if b > a {
                assert(rest.take(b - a).last() == v@[b - 1]);
            }
        }
        assert(r@ == v@.subrange(a as int, b as int));
    }
    r
}

/// A copy of `s` between double quotes.
pub fn quote(s: &str) -> (r: String)
    ensures
        r@ == quoted(s@),
{
    let mut r = String::new();
    push_char(&mut r, '"');
    r.append(s);
    push_char(&mut r, '"');
    r
}

/// A copy of `s` with one indent unit after each line feed.
pub fn indent(s: &str) -> (r: String)
    ensures
        r@ == indented(s@),
{
    let mut r = String::new();
    for c in it: s.chars()
        invariant
            it.seq() == s@,
            r@ == indented(s@.take(it.index())),
    {
        assert(s@.take(it.index() + 1).drop_last() == s@.take(it.index()));
        push_char(&mut r, c);
        if c == '\n' {
            push_char(&mut r, ' ');
            push_char(&mut r, ' ');
        }
    }
    assert(s@.take(s@.len() as int) == s@);
    r
}

/// The block of a sense whose body is `body`: see [`bullet_block`].
pub fn bullet_lines(body: &str) -> (r: String)
    ensures
        r@ == bullet_block(body@),
{
    let block = indent(body);
    let v = chars_of(block.as_str());
    let mut r = String::new();
    push_char(&mut r, '-');
    push_char(&mut r, ' ');
    if v.len() >= 2 {
        push_chars(&mut r, &v, 0, v.len() - 2);
    }
    r
}

/// Tells whether a `/` stands in the first line of `s`. Only that line is read.
pub fn first_line_has_slash(s: &str) -> (r: bool)
    ensures
        r == slash_in_first_line(s@),
{
    for c in it: s.chars()
        invariant
            it.seq() == s@,
            forall|j: int| 0 <= j < it.index() ==> #[trigger] s@[j] != '\n' && s@[j] != '/',
    {
        if c == '/' {
            return true;
        }
        if c == '\n' {
            assert(!slash_in_first_line(s@)) by {
                assert(s@[it.index()] == '\n');
            }
            return false;
        }
    }
    false
}

/// How far a scan for `</p>` has come when it meets the first `/`.
enum Close {
    /// No `/` so far.
    Unseen,
    /// The `/` came right after a `<`: a `p` may follow.
    Slash,
    /// `</p` is read: a `>` may follow.
    Letter,
}

/// Tells whether a `/` stands in `s` before the first `</p>`. The scan ends two
/// characters behind the first `/` at the latest.
pub fn html_head_has_slash(s: &str) -> (r: bool)
    ensures
        r == slash_in_html_head(s@),
{
    let mut state = Close::Unseen;
    let mut angle = false;
    for c in it: s.chars()
        invariant
            it.seq() == s@,
            match state {
                Close::Unseen => {
                    &&& forall|j: int| 0 <= j < it.index() ==> #[trigger] s@[j] != '/'
                    &&& angle == (it.index() > 0 && s@[it.index() - 1] == '<')
                },
                Close::Slash => {
                    &&& it.index() >= 2
                    &&& forall|j: int| 0 <= j < it.index() - 1 ==> #[trigger] s@[j] != '/'
                    &&& s@[it.index() - 2] == '<'
                    &&& s@[it.index() - 1] == '/'
                },
                Close::Letter => {
                    &&& it.index() >= 3
                    &&& forall|j: int| 0 <= j < it.index() - 2 ==> #[trigger] s@[j] != '/'
                    &&& s@[it.index() - 3] == '<'
                    &&& s@[it.index() - 2] == '/'
                    &&& s@[it.index() - 1] == 'p'
                },
            },
    {
        let ghost at = it.index();
        match state {
            Close::Unseen => {
                if c == '/' {
                    if angle {
                        state = Close::Slash;
                    } else {
                        assert(slash_in_html_head(s@)) by {
                            lemma_no_close_before_slash(s@, at);
                        }
                        return true;
                    }
                }
                angle = c == '<';
            },
            Close::Slash => {
                if c == 'p' {
                    state = Close::Letter;
                } else {
                    assert(slash_in_html_head(s@)) by {
                        lemma_no_close_before_slash(s@, at - 1);
                    }
                    return true;
                }
            },
            Close::Letter => {
                if c == '>' {
                    assert(!slash_in_html_head(s@)) by {
                        assert(closes_at(s@, at - 3));
                    }
                    return false;
                } else {
                    assert(slash_in_html_head(s@)) by {
                        lemma_no_close_before_slash(s@, at - 2);
                    }
                    return true;
                }
            },
        }
    }
    match state {
        Close::Unseen => false,
        Close::Slash => {
            assert(slash_in_html_head(s@)) by {
                lemma_no_close_before_slash(s@, s@.len() - 1);
            }
            true
        },
        Close::Letter => {
            assert(slash_in_html_head(s@)) by {
                lemma_no_close_before_slash(s@, s@.len() - 2);
            }
            true
        },
    }
}

/// Before the first `/` of `s` no `</p>` begins, but for one that this `/` belongs to.
proof fn lemma_no_close_before_slash(s: Seq<char>, p: int)
    requires
        0 <= p < s.len(),
        s[p] == '/',
        forall|j: int| 0 <= j < p ==> #[trigger] s[j] != '/',
        !closes_at(s, p - 1),
    ensures
        slash_in_html_head(s),
{
    assert forall|k: int| 0 <= k < p implies !#[trigger] closes_at(s, k) by {
        if k < p - 1 {
            assert(s[k + 1] != '/');
        }
    }
}

/// A full stop is never doubled: closing a sentence twice is closing it once.
pub proof fn lemma_full_stop_once(s: Seq<char>)
    ensures
        ends_with_full_stop(with_full_stop(s)),
        with_full_stop(with_full_stop(s)) == with_full_stop(s),
{
}

/// Indentation works piece by piece: it never looks across a seam.
pub proof fn lemma_indented_concat(a: Seq<char>, b: Seq<char>)
    ensures
        indented(a + b) == indented(a) + indented(b),
    decreases b.len(),
{
    if b.len() == 0 {
        assert(a + b == a);
    } else {
        lemma_indented_concat(a, b.drop_last());
        assert((a + b).drop_last() == a + b.drop_last());
    }
}

/// A line feed is followed by one indent unit; a text without line feed stays as it is.
pub proof fn lemma_indented_line(line: Seq<char>)
    ensures
        indented(line.push('\n')) == indented(line).push('\n') + indent_unit(),
        !line.contains('\n') ==> indented(line) == line,
    decreases line.len(),
{
    assert(line.push('\n').drop_last() == line);
    if line.len() > 0 && !line.contains('\n') {
        let front = line.drop_last();
        assert forall|i: int| 0 <= i < front.len() implies front[i] != '\n' by {
            assert(line[i] == front[i]);
            assert(line.contains(line[i]));
        }
        assert(!front.contains('\n'));
        lemma_indented_line(front);
        assert(line.contains(line.last()));
        assert(front.push(line.last()) == line);
    }
}

/// The block of a body that ends its last line: behind the bullet every line of
/// the body but the first stands one indent unit deeper, and the last line is
/// still ended.
pub proof fn lemma_bullet_block_of_lines(lines: Seq<char>)
    ensures
        bullet_block(lines.push('\n')) == bullet() + indented(lines).push('\n'),
{
    lemma_indented_line(lines);
    let block = indented(lines).push('\n') + indent_unit();
    assert(block.take(block.len() - 2) == indented(lines).push('\n'));
}

/// Whole lines that follow the lines of a body stand, in its block, one indent
/// unit deeper than they would stand on their own.
pub proof fn lemma_bullet_block_concat(lines: Seq<char>, more: Seq<char>)
    requires
        lines.len() > 0,
        lines.last() == '\n',
        whole_lines(more),
    ensures
        bullet_block(lines + more) == bullet_block(lines) + shifted(more),
{
    let front = lines.drop_last();
    assert(lines == front.push('\n'));
    lemma_bullet_block_of_lines(front);
    lemma_indented_line(front);
    if more.len() == 0 {
        assert(lines + more == lines);
    } else {
        let start = more.drop_last();
        assert(more == start.push('\n'));
        lemma_indented_line(start);
        lemma_indented_concat(lines, more);
        let deep = indented(lines) + indented(start).push('\n');
        assert(indented(lines + more) == deep + indent_unit());
        assert((deep + indent_unit()).take(deep.len() as int) == deep);
        assert(without_last_two(indented(more)) == indented(start).push('\n')) by {
            let whole = indented(start).push('\n') + indent_unit();
            assert(whole.take(whole.len() - 2) == indented(start).push('\n'));
        }
        assert(bullet() + deep == bullet() + indented(front).push('\n') + (indent_unit()
            + indented(start).push('\n')));
    }
}

/// Shifting works block by block.
pub proof fn lemma_shifted_concat(a: Seq<char>, b: Seq<char>)
    requires
        whole_lines(a),
        whole_lines(b),
    ensures
        shifted(a + b) == shifted(a) + shifted(b),
        whole_lines(shifted(a)),
{
    if a.len() == 0 {
        assert(a + b == b);
    } else {
        let front = a.drop_last();
        assert(a == front.push('\n'));
        lemma_indented_line(front);
        let deep_a = indented(front).push('\n');
        assert((deep_a + indent_unit()).take(deep_a.len() as int) == deep_a);
        assert(without_last_two(indented(a)) == deep_a);
        if b.len() == 0 {
            assert(a + b == a);
        } else {
            let start = b.drop_last();
            assert(b == start.push('\n'));
            lemma_indented_line(start);
            lemma_indented_concat(a, b);
            let deep_b = indented(start).push('\n');
            assert((deep_b + indent_unit()).take(deep_b.len() as int) == deep_b);
            assert(without_last_two(indented(b)) == deep_b);
            let deep = deep_a + indent_unit() + deep_b;
            assert(indented(a + b) == deep + indent_unit());
            assert((deep + indent_unit()).take(deep.len() as int) == deep);
            assert(indent_unit() + deep == indent_unit() + deep_a + (indent_unit() + deep_b));
        }
    }
}

} // verus!
