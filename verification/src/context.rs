//! Wrapping the top level `<app-client-context>` of an app's UI in the
//! `<*-context>` element of a remote zome, and importing that element.

use vstd::prelude::*;
use crate::text::{matches_at, matches_at_exec, chars_of, string_of, push_range, push_all, push_str};
use crate::paths::{is_within_folder, is_within_folder_exec, parent_folder, parent_folder_exec};

verus! {

/// `<app-client-context`
pub open spec fn open_tag() -> Seq<char> {
    seq!['<', 'a', 'p', 'p', '-', 'c', 'l', 'i', 'e', 'n', 't', '-', 'c', 'o', 'n', 't', 'e', 'x', 't']
}

/// `</app-client-context>`
pub open spec fn close_tag() -> Seq<char> {
    seq!['<', '/', 'a', 'p', 'p', '-', 'c', 'l', 'i', 'e', 'n', 't', '-', 'c', 'o', 'n', 't', 'e', 'x', 't', '>']
}

/// `import `
pub open spec fn import_keyword() -> Seq<char> {
    seq!['i', 'm', 'p', 'o', 'r', 't', ' ']
}

/// The characters of the Unicode `White_Space` property (what `\s` matches).
pub open spec fn is_white_space(c: char) -> bool {
    ||| ('\t' <= c && c <= '\r')
    ||| c == ' '
    ||| c == '\u{85}'
    ||| c == '\u{a0}'
    ||| c == '\u{1680}'
    ||| ('\u{2000}' <= c && c <= '\u{200a}')
    ||| c == '\u{2028}'
    ||| c == '\u{2029}'
    ||| c == '\u{202f}'
    ||| c == '\u{205f}'
    ||| c == '\u{3000}'
}

pub fn is_white_space_exec(c: char) -> (b: bool)
    ensures
        b == is_white_space(c),
{
    ('\t' <= c && c <= '\r') || c == ' ' || c == '\u{85}' || c == '\u{a0}' || c == '\u{1680}'
        || ('\u{2000}' <= c && c <= '\u{200a}') || c == '\u{2028}' || c == '\u{2029}'
        || c == '\u{202f}' || c == '\u{205f}' || c == '\u{3000}'
}

// ---------------------------------------------------------------------------
// The context block: `before <app-client-context props> middle </app-client-context> after`
// ---------------------------------------------------------------------------

/// An opening tag at `b` whose first `>` is at `g`, and a closing tag at `e` after it.
pub open spec fn context_match(t: Seq<char>, b: int, g: int, e: int) -> bool {
    &&& matches_at(t, b, open_tag())
    &&& b + 19 <= g < t.len()
    &&& t[g] == '>'
    &&& forall|k: int| b + 19 <= k < g ==> t[k] != '>'
    &&& g + 1 <= e
    &&& matches_at(t, e, close_tag())
}

/// The split that a greedy `before` and a greedy `middle` select: the last
/// opening tag that is followed by a `>` and a closing tag, and the last
/// closing tag.
pub open spec fn is_context_split(t: Seq<char>, b: int, g: int, e: int) -> bool {
    &&& context_match(t, b, g, e)
    &&& forall|b2: int, g2: int, e2: int| #[trigger] context_match(t, b2, g2, e2) ==> b2 <= b
    &&& forall|e2: int| e < e2 ==> !#[trigger] matches_at(t, e2, close_tag())
}

pub open spec fn has_context_block(t: Seq<char>) -> bool {
    exists|b: int, g: int, e: int| context_match(t, b, g, e)
}

/// There is at most one context split of a text.
pub proof fn lemma_context_split_unique(t: Seq<char>, b: int, g: int, e: int, b2: int, g2: int, e2: int)
    requires
        is_context_split(t, b, g, e),
        is_context_split(t, b2, g2, e2),
    ensures
        b == b2 && g == g2 && e == e2,
{
    assert(b2 <= b);
    assert(b <= b2);
    if g < g2 {
        assert(t[g] != '>');
    } else if g2 < g {
        assert(t[g2] != '>');
    }
    if e < e2 {
        assert(!matches_at(t, e2, close_tag()));
    } else if e2 < e {
        assert(!matches_at(t, e, close_tag()));
    }
}

/// The last position of a closing tag.
fn last_close_tag(t: &[char], close: &[char]) -> (r: Option<usize>)
    requires
        close@ == close_tag(),
    ensures
        match r {
            Some(e) => matches_at(t@, e as int, close_tag()) && forall|e2: int|
                e < e2 ==> !#[trigger] matches_at(t@, e2, close_tag()),
            None => forall|e2: int| !#[trigger] matches_at(t@, e2, close_tag()),
        },
{
    let mut i: usize = t.len();
    while i > 0
        invariant
            i <= t.len(),
            close@ == close_tag(),
            forall|e2: int| i <= e2 ==> !#[trigger] matches_at(t@, e2, close_tag()),
        decreases i,
    {
        i = i - 1;
        if matches_at_exec(t, i, close) {
            return Some(i);
        }
    }
    None
}

/// The first position at or after `start` that holds `c`.
pub fn first_char_from(t: &[char], start: usize, c: char) -> (r: Option<usize>)
    ensures
        match r {
            Some(k) => start <= k < t.len() && t@[k as int] == c && forall|j: int|
                start <= j < k ==> t@[j] != c,
            None => forall|j: int| start <= j < t.len() ==> t@[j] != c,
        },
{
    let mut k: usize = start;
    while k < t.len()
        invariant
            start <= k,
            forall|j: int| start <= j < k ==> t@[j] != c,
        decreases t.len() - k,
    {
        if t[k] == c {
            return Some(k);
        }
        k = k + 1;
    }
    None
}

/// Finds the context split of a text, if it has a context block.
pub fn find_context_split(t: &[char]) -> (r: Option<(usize, usize, usize)>)
    ensures
        match r {
            Some((b, g, e)) => is_context_split(t@, b as int, g as int, e as int),
            None => !has_context_block(t@),
        },
{
    let open: Vec<char> = vec!['<', 'a', 'p', 'p', '-', 'c', 'l', 'i', 'e', 'n', 't', '-', 'c', 'o', 'n', 't', 'e', 'x', 't'];
    let close: Vec<char> = vec!['<', '/', 'a', 'p', 'p', '-', 'c', 'l', 'i', 'e', 'n', 't', '-', 'c', 'o', 'n', 't', 'e', 'x', 't', '>'];
    assert(open@ =~= open_tag());
    assert(close@ =~= close_tag());
    let last = last_close_tag(t, close.as_slice());
    let l = match last {
        None => {
            assert forall|b: int, g: int, e: int| !context_match(t@, b, g, e) by {
                if context_match(t@, b, g, e) {
                    assert(matches_at(t@, e, close_tag()));
                }
            }
            return None;
        },
        Some(l) => l,
    };
    // Every match closes at or before `l`.
    assert forall|b2: int, g2: int, e2: int| #[trigger] context_match(t@, b2, g2, e2) implies e2 <= l by {
        if e2 > l {
            assert(!matches_at(t@, e2, close_tag()));
        }
    }
    let mut b: usize = l;
    while b > 0
        invariant
            b <= l,
            l < t.len(),
            open@ == open_tag(),
            matches_at(t@, l as int, close_tag()),
            forall|e2: int| l < e2 ==> !#[trigger] matches_at(t@, e2, close_tag()),
            forall|b2: int, g2: int, e2: int| #[trigger] context_match(t@, b2, g2, e2) ==> e2 <= l,
            forall|b2: int, g2: int, e2: int| #[trigger] context_match(t@, b2, g2, e2) ==> b2 < b,
        decreases b,
    {
        b = b - 1;
        if matches_at_exec(t, b, open.as_slice()) {
            let g = first_char_from(t, b + 19, '>');
            match g {
                Some(g) => {
                    if g < l {
                        assert(context_match(t@, b as int, g as int, l as int));
                        return Some((b, g, l));
                    } else {
                        assert forall|b2: int, g2: int, e2: int| #[trigger] context_match(t@, b2, g2, e2) implies b2 < b by {
                            if b2 == b {
                                if g2 < g {
                                    assert(t@[g2] == '>');
                                } else if g < g2 {
                                    assert(t@[g as int] != '>');
                                }
                            }
                        }
                    }
                },
                None => {
                    assert forall|b2: int, g2: int, e2: int| #[trigger] context_match(t@, b2, g2, e2) implies b2 < b by {
                        if b2 == b {
                            assert(t@[g2] == '>');
                        }
                    }
                },
            }
        }
    }
    assert forall|b2: int, g2: int, e2: int| !context_match(t@, b2, g2, e2) by {
        if context_match(t@, b2, g2, e2) {
            assert(b2 < 0);
        }
    }
    None
}


// ---------------------------------------------------------------------------
// The indentation of the context block: `\n(?<indent>\s*)<app-client-context`
// ---------------------------------------------------------------------------

/// A newline at `i`, white space up to `j`, and an opening tag at `j`.
pub open spec fn indent_match(t: Seq<char>, i: int, j: int) -> bool {
    &&& 0 <= i < t.len()
    &&& t[i] == '\n'
    &&& i + 1 <= j
    &&& forall|k: int| i + 1 <= k < j ==> is_white_space(#[trigger] t[k])
    &&& matches_at(t, j, open_tag())
}

/// The leftmost such match.
pub open spec fn is_indent_capture(t: Seq<char>, i: int, j: int) -> bool {
    &&& indent_match(t, i, j)
    &&& forall|i2: int, j2: int| #[trigger] indent_match(t, i2, j2) ==> i <= i2
}

/// The white space before the context block: what the leftmost indent match
/// captures, or two spaces when there is none.
pub open spec fn indentation(t: Seq<char>) -> Seq<char> {
    if exists|i: int, j: int| is_indent_capture(t, i, j) {
        let (i, j) = choose|i: int, j: int| is_indent_capture(t, i, j);
        t.subrange(i + 1, j)
    } else {
        seq![' ', ' ']
    }
}

proof fn lemma_open_tag_starts_with_lt(t: Seq<char>, j: int)
    requires
        matches_at(t, j, open_tag()),
    ensures
        t[j] == '<',
        !is_white_space(t[j]),
{
    assert(t.subrange(j, j + 19)[0] == open_tag()[0]);
}

pub proof fn lemma_indent_capture_unique(t: Seq<char>, i: int, j: int, i2: int, j2: int)
    requires
        is_indent_capture(t, i, j),
        is_indent_capture(t, i2, j2),
    ensures
        i == i2 && j == j2,
{
    assert(i <= i2 && i2 <= i);
    lemma_open_tag_starts_with_lt(t, j);
    lemma_open_tag_starts_with_lt(t, j2);
    if j < j2 {
        assert(is_white_space(t[j]));
    } else if j2 < j {
        assert(is_white_space(t[j2]));
    }
}

/// Finds the leftmost indent match.
pub fn find_indent(t: &[char]) -> (r: Option<(usize, usize)>)
    ensures
        match r {
            Some((i, j)) => is_indent_capture(t@, i as int, j as int),
            None => forall|i: int, j: int| !#[trigger] indent_match(t@, i, j),
        },
{
    let open: Vec<char> = vec!['<', 'a', 'p', 'p', '-', 'c', 'l', 'i', 'e', 'n', 't', '-', 'c', 'o', 'n', 't', 'e', 'x', 't'];
    assert(open@ =~= open_tag());
    let mut i: usize = 0;
    while i < t.len()
        invariant
            i <= t.len(),
            open@ == open_tag(),
            forall|i2: int, j2: int| #[trigger] indent_match(t@, i2, j2) ==> i <= i2,
        decreases t.len() - i,
    {
        if t[i] == '\n' {
            let mut j: usize = i + 1;
            while j < t.len() && is_white_space_exec(t[j])
                invariant
                    i < t.len(),
                    i + 1 <= j <= t.len(),
                    forall|k: int| i + 1 <= k < j ==> is_white_space(#[trigger] t@[k]),
                decreases t.len() - j,
            {
                j = j + 1;
            }
            if matches_at_exec(t, j, open.as_slice()) {
                return Some((i, j));
            }
            assert forall|i2: int, j2: int| #[trigger] indent_match(t@, i2, j2) implies i + 1 <= i2 by {
                if i2 == i {
                    lemma_open_tag_starts_with_lt(t@, j2);
                    if j2 < j {
                        assert(is_white_space(t@[j2]));
                    } else if j < j2 {
                        assert(is_white_space(t@[j as int]));
                    }
                }
            }
        }
        i = i + 1;
    }
    None
}

/// The indentation of the context block of `t`.
pub fn indentation_exec(t: &[char]) -> (r: Vec<char>)
    ensures
        r@ == indentation(t@),
{
    match find_indent(t) {
        Some((i, j)) => {
            proof {
                let (i2, j2) = choose|i2: int, j2: int| is_indent_capture(t@, i2, j2);
                lemma_indent_capture_unique(t@, i as int, j as int, i2, j2);
            }
            let mut out: Vec<char> = Vec::new();
            push_range(&mut out, t, i + 1, j);
            out
        },
        None => {
            assert(!exists|i: int, j: int| is_indent_capture(t@, i, j));
            vec![' ', ' ']
        },
    }
}

// ---------------------------------------------------------------------------
// The last import: `(?<before>[\S\s]*)import (?<importmiddle>[^\n;]*)[;|\n](?<after>[\S\s]*)`
// ---------------------------------------------------------------------------

pub open spec fn is_import_separator(c: char) -> bool {
    c == ';' || c == '|' || c == '\n'
}

/// `import ` at `p`, then `k` characters that are neither a newline nor a
/// `;`, then a separator.
pub open spec fn import_match(t: Seq<char>, p: int, k: int) -> bool {
    &&& matches_at(t, p, import_keyword())
    &&& 0 <= k
    &&& p + 7 + k < t.len()
    &&& forall|q: int| p + 7 <= q < p + 7 + k ==> #[trigger] t[q] != '\n' && t[q] != ';'
    &&& is_import_separator(t[p + 7 + k])
}

/// The match that a greedy `before` and a greedy `importmiddle` select.
pub open spec fn is_import_split(t: Seq<char>, p: int, k: int) -> bool {
    &&& import_match(t, p, k)
    &&& forall|p2: int, k2: int| #[trigger] import_match(t, p2, k2) ==> p2 < p || (p2 == p && k2 <= k)
}

pub proof fn lemma_import_split_unique(t: Seq<char>, p: int, k: int, p2: int, k2: int)
    requires
        is_import_split(t, p, k),
        is_import_split(t, p2, k2),
    ensures
        p == p2 && k == k2,
{
    assert(import_match(t, p2, k2));
    assert(import_match(t, p, k));
}

/// The longest middle of an import match at `p`, if there is one.
fn import_middle_at(t: &[char], p: usize) -> (r: Option<usize>)
    requires
        matches_at(t@, p as int, import_keyword()),
    ensures
        match r {
            Some(k) => import_match(t@, p as int, k as int) && forall|k2: int|
                #[trigger] import_match(t@, p as int, k2) ==> k2 <= k,
            None => forall|k2: int| !#[trigger] import_match(t@, p as int, k2),
        },
{
    let n = t.len();
    assert(p + 7 <= n);
    let start: usize = p + 7;
    let mut q: usize = start;
    let mut bar: Option<usize> = None;
    while q < t.len() && t[q] != '\n' && t[q] != ';'
        invariant
            start == p + 7,
            start <= q <= t.len(),
            forall|x: int| start <= x < q ==> #[trigger] t@[x] != '\n' && t@[x] != ';',
            match bar {
                Some(x) => start <= x < q && t@[x as int] == '|' && forall|y: int|
                    x < y < q ==> #[trigger] t@[y] != '|',
                None => forall|y: int| start <= y < q ==> #[trigger] t@[y] != '|',
            },
        decreases t.len() - q,
    {
        if t[q] == '|' {
            bar = Some(q);
        }
        q = q + 1;
    }
    if q < t.len() {
        let k = q - start;
        assert(import_match(t@, p as int, k as int));
        assert forall|k2: int| #[trigger] import_match(t@, p as int, k2) implies k2 <= k by {
            if k2 > k {
                assert(t@[q as int] != '\n' && t@[q as int] != ';');
            }
        }
        Some(k)
    } else {
        match bar {
            Some(x) => {
                let k = x - start;
                assert(import_match(t@, p as int, k as int));
                assert forall|k2: int| #[trigger] import_match(t@, p as int, k2) implies k2 <= k by {
                    if k2 > k {
                        let y = p + 7 + k2;
                        assert(t@[y] != '\n' && t@[y] != ';');
                        assert(t@[y] != '|');
                    }
                }
                Some(k)
            },
            None => {
                assert forall|k2: int| !#[trigger] import_match(t@, p as int, k2) by {
                    if import_match(t@, p as int, k2) {
                        let y = p + 7 + k2;
                        assert(t@[y] != '\n' && t@[y] != ';');
                        assert(t@[y] != '|');
                    }
                }
                None
            },
        }
    }
}

/// Finds the import split of a text.
pub fn find_import_split(t: &[char]) -> (r: Option<(usize, usize)>)
    ensures
        match r {
            Some((p, k)) => is_import_split(t@, p as int, k as int),
            None => forall|p: int, k: int| !#[trigger] import_match(t@, p, k),
        },
{
    let kw: Vec<char> = vec!['i', 'm', 'p', 'o', 'r', 't', ' '];
    assert(kw@ =~= import_keyword());
    let mut p: usize = t.len();
    while p > 0
        invariant
            p <= t.len(),
            kw@ == import_keyword(),
            forall|p2: int, k2: int| #[trigger] import_match(t@, p2, k2) ==> p2 < p,
        decreases p,
    {
        p = p - 1;
        if matches_at_exec(t, p, kw.as_slice()) {
            match import_middle_at(t, p) {
                Some(k) => {
                    return Some((p, k));
                },
                None => {},
            }
        }
    }
    None
}

// ---------------------------------------------------------------------------
// The edit
// ---------------------------------------------------------------------------

/// Every newline of `m` followed by two more spaces of indentation.
pub open spec fn indent_lines(m: Seq<char>) -> Seq<char>
    decreases m.len(),
{
    if m.len() == 0 {
        Seq::empty()
    } else {
        indent_lines(m.drop_last()) + if m.last() == '\n' {
            seq!['\n', ' ', ' ']
        } else {
            seq![m.last()]
        }
    }
}

/// Appends `indent_lines(t[from..to])` to `out`.
fn push_indented(out: &mut Vec<char>, t: &[char], from: usize, to: usize)
    requires
        from <= to <= t.len(),
    ensures
        final(out)@ == old(out)@ + indent_lines(t@.subrange(from as int, to as int)),
{
    let mut k: usize = from;
    while k < to
        invariant
            from <= k <= to <= t.len(),
            out@ == old(out)@ + indent_lines(t@.subrange(from as int, k as int)),
        decreases to - k,
    {
        if t[k] == '\n' {
            out.push('\n');
            out.push(' ');
            out.push(' ');
        } else {
            out.push(t[k]);
        }
        k = k + 1;
        assert(t@.subrange(from as int, k as int).drop_last() == t@.subrange(from as int, (k - 1) as int));
    }
}

/// ` role="`
pub open spec fn role_attribute() -> Seq<char> {
    seq![' ', 'r', 'o', 'l', 'e', '=', '"']
}

/// The text with the middle of its context block wrapped in
/// `<element role="role">`.
pub open spec fn context_wrapped(
    t: Seq<char>,
    g: int,
    e: int,
    indent: Seq<char>,
    role: Seq<char>,
    element: Seq<char>,
) -> Seq<char> {
    t.subrange(0, g + 1) + seq!['\n'] + indent + seq![' ', ' ', '<'] + element + role_attribute()
        + role + seq!['"', '>'] + indent_lines(t.subrange(g + 1, e)) + seq!['<', '/'] + element
        + seq!['>', '\n'] + indent + close_tag() + t.subrange(e + 21, t.len() as int)
}

/// The first replacement of the context regex.
pub open spec fn with_context_element(t: Seq<char>, role: Seq<char>, element: Seq<char>) -> Seq<char> {
    if exists|b: int, g: int, e: int| is_context_split(t, b, g, e) {
        let (b, g, e) = choose|b: int, g: int, e: int| is_context_split(t, b, g, e);
        context_wrapped(t, g, e, indentation(t), role, element)
    } else {
        t
    }
}

/// The text with `import '<import>';` on its own line after the last import.
pub open spec fn import_added(t: Seq<char>, p: int, k: int, import: Seq<char>) -> Seq<char> {
    t.subrange(0, p + 7 + k) + seq![';', '\n'] + import_keyword() + seq!['\''] + import + seq!['\'', ';']
        + t.subrange(p + 8 + k, t.len() as int)
}

/// The first replacement of the import regex.
pub open spec fn with_import(t: Seq<char>, import: Seq<char>) -> Seq<char> {
    if exists|p: int, k: int| is_import_split(t, p, k) {
        let (p, k) = choose|p: int, k: int| is_import_split(t, p, k);
        import_added(t, p, k, import)
    } else {
        t
    }
}

/// A file's contents after the context element was added: unchanged when it
/// has no context block.
pub open spec fn with_context(t: Seq<char>, role: Seq<char>, element: Seq<char>, import: Seq<char>) -> Seq<char> {
    if has_context_block(t) {
        with_import(with_context_element(t, role, element), import)
    } else {
        t
    }
}

/// Builds `context_wrapped` for the block whose first `>` is at `g` and
/// that closes at `e`.
fn build_wrapped(t: &[char], g: usize, e: usize, indent: &[char], role: &str, element: &str) -> (out: Vec<char>)
    requires
        g + 1 <= e,
        matches_at(t@, e as int, close_tag()),
    ensures
        out@ == context_wrapped(t@, g as int, e as int, indent@, role@, element@),
{
    let n = t.len();
    assert(t@.subrange(e as int, e + 21) =~= close_tag());
    let mut out: Vec<char> = Vec::new();
    push_range(&mut out, t, 0, g + 1);
    let ghost mut exp = t@.subrange(0, g + 1);
    assert(out@ =~= exp);
    out.push('\n');
    proof { exp = exp + seq!['\n']; }
    assert(out@ =~= exp);
    push_all(&mut out, indent);
    proof { exp = exp + indent@; }
    out.push(' ');
    out.push(' ');
    out.push('<');
    proof { exp = exp + seq![' ', ' ', '<']; }
    assert(out@ =~= exp);
    push_str(&mut out, element);
    proof { exp = exp + element@; }
    push_str(&mut out, " role=\"");
    proof {
        reveal_strlit(" role=\"");
        exp = exp + role_attribute();
    }
    assert(out@ =~= exp);
    push_str(&mut out, role);
    proof { exp = exp + role@; }
    out.push('"');
    out.push('>');
    proof { exp = exp + seq!['"', '>']; }
    assert(out@ =~= exp);
    push_indented(&mut out, t, g + 1, e);
    proof { exp = exp + indent_lines(t@.subrange(g + 1, e as int)); }
    out.push('<');
    out.push('/');
    proof { exp = exp + seq!['<', '/']; }
    assert(out@ =~= exp);
    push_str(&mut out, element);
    proof { exp = exp + element@; }
    out.push('>');
    out.push('\n');
    proof { exp = exp + seq!['>', '\n']; }
    assert(out@ =~= exp);
    push_all(&mut out, indent);
    proof { exp = exp + indent@; }
    push_range(&mut out, t, e, e + 21);
    proof { exp = exp + close_tag(); }
    push_range(&mut out, t, e + 21, n);
    proof { exp = exp + t@.subrange(e + 21, n as int); }
    assert(out@ =~= exp);
    out
}

/// Wraps the context block of `t`, as `with_context_element` says.
fn wrap_context_block(t: &[char], role: &str, element: &str) -> (r: Vec<char>)
    ensures
        r@ == with_context_element(t@, role@, element@),
{
    match find_context_split(t) {
        Some((b, g, e)) => {
            proof {
                let (b2, g2, e2) = choose|b2: int, g2: int, e2: int| is_context_split(t@, b2, g2, e2);
                lemma_context_split_unique(t@, b as int, g as int, e as int, b2, g2, e2);
            }
            let indent = indentation_exec(t);
            build_wrapped(t, g, e, indent.as_slice(), role, element)
        },
        None => {
            assert(!exists|b: int, g: int, e: int| is_context_split(t@, b, g, e));
            let mut out: Vec<char> = Vec::new();
            push_all(&mut out, t);
            assert(out@ =~= t@);
            out
        },
    }
}

/// Adds the import line, as `with_import` says.
fn add_import(t: &[char], import: &str) -> (r: Vec<char>)
    ensures
        r@ == with_import(t@, import@),
{
    let mut out: Vec<char> = Vec::new();
    match find_import_split(t) {
        Some((p, k)) => {
            proof {
                let (p2, k2) = choose|p2: int, k2: int| is_import_split(t@, p2, k2);
                lemma_import_split_unique(t@, p as int, k as int, p2, k2);
            }
            let n = t.len();
            assert(p + 7 + k < n);
            push_range(&mut out, t, 0, p + 7 + k);
            push_str(&mut out, ";\nimport '");
            push_str(&mut out, import);
            out.push('\'');
            out.push(';');
            push_range(&mut out, t, p + 8 + k, n);
            proof {
                reveal_strlit(";\nimport '");
            }
            assert(out@ =~= import_added(t@, p as int, k as int, import@));
        },
        None => {
            push_all(&mut out, t);
        },
    }
    out
}

/// The contents of a file after the `<element>` context was added to its
/// context block and `import` to its imports.
pub fn add_context_to_contents(contents: &str, role: &str, element: &str, import: &str) -> (r: String)
    ensures
        r@ == with_context(contents@, role@, element@, import@),
{
    let t = chars_of(contents);
    let wrapped = wrap_context_block(t.as_slice(), role, element);
    if has_context_block_exec(t.as_slice()) {
        let imported = add_import(wrapped.as_slice(), import);
        string_of(imported.as_slice())
    } else {
        contents.to_owned()
    }
}

fn has_context_block_exec(t: &[char]) -> (b: bool)
    ensures
        b == has_context_block(t@),
{
    find_context_split(t).is_some()
}

/// What a file of the project holds once the context element was added: the
/// files in the folder of the chosen `package.json` get the edit, the others
/// stay as they are.
pub open spec fn context_added_to_file(
    path: Seq<char>,
    contents: Seq<char>,
    package_json_path: Seq<char>,
    role: Seq<char>,
    element: Seq<char>,
    import: Seq<char>,
) -> Seq<char> {
    if is_within_folder(path, parent_folder(package_json_path)) {
        with_context(contents, role, element, import)
    } else {
        contents
    }
}

/// Adds the `<context_element role="dna_role_name">` element around the
/// middle of the `<app-client-context>` of the file at `path`, and an import
/// of `context_element_import`, if the file lies in the folder of the NPM
/// package whose `package.json` is at `package_json_path`.
pub fn add_context_element_to_file(
    path: &str,
    contents: &str,
    package_json_path: &str,
    dna_role_name: &str,
    context_element: &str,
    context_element_import: &str,
) -> (r: String)
    ensures
        r@ == context_added_to_file(
            path@,
            contents@,
            package_json_path@,
            dna_role_name@,
            context_element@,
            context_element_import@,
        ),
{
    let folder = parent_folder_exec(package_json_path);
    if is_within_folder_exec(path, folder.as_str()) {
        add_context_to_contents(contents, dna_role_name, context_element, context_element_import)
    } else {
        contents.to_owned()
    }
}

} // verus!
