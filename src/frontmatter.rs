//! The record file: a metadata block between two `---` lines, then the
//! free-text description. Turning the block into task fields and back is the
//! caller's (a YAML mapping); this module frames and unframes it.
use vstd::prelude::*;
use crate::text::{is_prefix, is_space, push_char, starts_with, trim, trim_end, trim_start, trim_str};

verus! {

/// Errors of reading a record file.
#[derive(Debug)]
pub enum FrontmatterError {
    MissingDelimiters,
    YamlParse(String),
    InvalidFormat,
}

pub open spec fn delimiter() -> Seq<char> {
    seq!['-', '-', '-']
}

/// Without leading newlines.
pub open spec fn strip_newlines(s: Seq<char>) -> Seq<char>
    decreases s.len(),
{
    if s.len() > 0 && s[0] == '\n' {
        strip_newlines(s.drop_first())
    } else {
        s
    }
}

/// A line of `a` that is exactly the delimiter starts at `p`.
pub open spec fn closing_at(a: Seq<char>, p: int) -> bool {
    &&& 0 <= p
    &&& p + 3 <= a.len()
    &&& (p == 0 || a[p - 1] == '\n')
    &&& a[p] == '-' && a[p + 1] == '-' && a[p + 2] == '-'
    &&& (p + 3 == a.len() || a[p + 3] == '\n')
}

/// The first delimiter line of `a` at or after `p`, or -1.
pub open spec fn first_closing(a: Seq<char>, p: int) -> int
    decreases a.len() - p,
{
    if p < 0 || p + 3 > a.len() {
        -1
    } else if closing_at(a, p) {
        p
    } else {
        first_closing(a, p + 1)
    }
}

/// The text after the opening delimiter, leading newlines dropped.
pub open spec fn after_opening(content: Seq<char>) -> Seq<char> {
    let t = trim(content);
    strip_newlines(t.subrange(3, t.len() as int))
}

/// How a record file splits: the whole text trimmed must open with the
/// delimiter; the block runs up to the first line that is exactly the
/// delimiter, and the rest after that line is the body.
pub open spec fn split_spec(content: Seq<char>) -> Option<(Seq<char>, Seq<char>)> {
    let t = trim(content);
    if !is_prefix(delimiter(), t) {
        None
    } else {
        let a = after_opening(content);
        let k = first_closing(a, 0);
        if k < 0 {
            None
        } else {
            Some(
                (
                    if k == 0 {
                        Seq::empty()
                    } else {
                        a.subrange(0, k - 1)
                    },
                    a.subrange(k + 3, a.len() as int),
                ),
            )
        }
    }
}

/// The record file text for a metadata block and a description: the block
/// between delimiter lines, then, if there is a description, a blank line and
/// the description with a final newline.
pub open spec fn record_text(meta: Seq<char>, description: Seq<char>) -> Seq<char> {
    let head = delimiter().push('\n') + meta + delimiter().push('\n');
    if description.len() == 0 {
        head
    } else {
        head + seq!['\n'] + description + seq!['\n']
    }
}

/// Splits a record file into its metadata block and its body.
pub fn split_frontmatter(content: &str) -> (r: Result<(String, String), FrontmatterError>)
    ensures
        match split_spec(content@) {
            Some((m, b)) => r matches Ok((fm, body)) && fm@ == m && body@ == b,
            None => r matches Err(FrontmatterError::MissingDelimiters),
        },
{
    let t = trim_str(content);
    proof {
        reveal_strlit("---");
        assert("---"@ =~= delimiter());
    }
    if !starts_with(t, "---") {
        return Err(FrontmatterError::MissingDelimiters);
    }
    let n = t.unicode_len();
    let after = t.substring_char(3, n);
    let m = after.unicode_len();
    let mut s: usize = 0;
    assert(after@.subrange(0, m as int) =~= after@);
    while s < m && after.get_char(s) == '\n'
        invariant
            s <= m == after@.len(),
            strip_newlines(after@) == strip_newlines(after@.subrange(s as int, m as int)),
        decreases m - s,
    {
        proof {
            let x = after@.subrange(s as int, m as int);
            assert(x.drop_first() =~= after@.subrange(s + 1, m as int));
        }
        s = s + 1;
    }
    let a = after.substring_char(s, m);
    proof {
        assert(strip_newlines(a@) == a@);
        assert(a@ == after_opening(content@));
    }
    let len = a.unicode_len();
    let mut p: usize = 0;
    while len >= 3 && p <= len - 3
        invariant
            len == a@.len(),
            a@ == after_opening(content@),
            is_prefix(delimiter(), trim(content@)),
            first_closing(a@, 0) == first_closing(a@, p as int),
        decreases len - p,
    {
        let at_line = p == 0 || a.get_char(p - 1) == '\n';
        if at_line && a.get_char(p) == '-' && a.get_char(p + 1) == '-' && a.get_char(p + 2) == '-'
            && (p + 3 == len || a.get_char(p + 3) == '\n') {
            assert(closing_at(a@, p as int));
            let fm = if p == 0 {
                String::new()
            } else {
                String::from_str(a.substring_char(0, p - 1))
            };
            let body = String::from_str(a.substring_char(p + 3, len));
            return Ok((fm, body));
        }
        p = p + 1;
    }
    Err(FrontmatterError::MissingDelimiters)
}

/// Frames a metadata block and a description as a record file.
pub fn assemble_frontmatter(meta: &str, description: &str) -> (r: String)
    ensures
        r@ == record_text(meta@, description@),
{
    let mut r = String::new();
    push_char(&mut r, '-');
    push_char(&mut r, '-');
    push_char(&mut r, '-');
    push_char(&mut r, '\n');
    r.append(meta);
    push_char(&mut r, '-');
    push_char(&mut r, '-');
    push_char(&mut r, '-');
    push_char(&mut r, '\n');
    if description.unicode_len() > 0 {
        push_char(&mut r, '\n');
        r.append(description);
        push_char(&mut r, '\n');
    }
    assert(r@ =~= record_text(meta@, description@));
    r
}

/// The body that follows the closing delimiter in `record_text`.
pub open spec fn body_text(description: Seq<char>) -> Seq<char> {
    if description.len() == 0 {
        Seq::empty()
    } else {
        seq!['\n', '\n'] + description
    }
}

proof fn lemma_first_closing_at(a: Seq<char>, p: int, k: int)
    requires
        0 <= p <= k,
        closing_at(a, k),
        forall|q: int| p <= q < k ==> !closing_at(a, q),
    ensures
        first_closing(a, p) == k,
    decreases k - p,
{
    if p < k {
        lemma_first_closing_at(a, p + 1, k);
    }
}

/// Framing round trip: a metadata block that ends in a newline, does not
/// open with one and holds no line that is exactly the delimiter, framed
/// with a description that has no surrounding white space, splits back into
/// the block (less its final newline) and a body that trims to the
/// description.
pub proof fn lemma_frame_round_trip(meta: Seq<char>, description: Seq<char>)
    requires
        meta.len() > 0,
        meta.last() == '\n',
        meta[0] != '\n',
        forall|p: int| !closing_at(meta, p),
        description.len() > 0 ==> !is_space(description[0]) && !is_space(description.last()),
    ensures
        split_spec(record_text(meta, description)) == Some(
            (meta.drop_last(), body_text(description)),
        ),
        trim(body_text(description)) == description,
{
    let d = delimiter();
    let content = record_text(meta, description);
    let head = d.push('\n') + meta + d.push('\n');
    let tail = body_text(description);
    let t = d.push('\n') + meta + d + tail;
    // the text is trimmed at its end only, down to `t`
    assert(trim_start(content) == content);
    if description.len() == 0 {
        assert(content == head);
        assert(head.drop_last() =~= t);
        assert(trim_end(t) == t);
    } else {
        assert(content =~= t.push('\n'));
        assert(content.drop_last() =~= t);
        assert(t.last() == description.last());
        assert(trim_end(t) == t);
    }
    assert(trim(content) == t);
    assert(t.subrange(0, 3) =~= d);
    let after = t.subrange(3, t.len() as int);
    let a = meta + d + tail;
    assert(after =~= seq!['\n'] + a);
    assert(after.drop_first() =~= a);
    assert(a[0] == meta[0]);
    assert(strip_newlines(a) == a);
    assert(strip_newlines(after) == a);
    assert(after_opening(content) == a);
    let k = meta.len() as int;
    assert(closing_at(a, k)) by {
        assert(a[k - 1] == meta.last());
        assert(a[k] == '-' && a[k + 1] == '-' && a[k + 2] == '-');
        if k + 3 < a.len() {
            assert(a[k + 3] == tail[0]);
        }
    }
    assert forall|q: int| 0 <= q < k implies !closing_at(a, q) by {
        if closing_at(a, q) {
            assert(a[q] == meta[q]);
            assert(q != k - 1);
            assert(a[q + 1] == meta[q + 1]);
            assert(q + 1 != k - 1);
            assert(a[q + 2] == meta[q + 2]);
            assert(q + 2 != k - 1);
            assert(a[q + 3] == meta[q + 3]);
            if q > 0 {
                assert(a[q - 1] == meta[q - 1]);
            }
            assert(closing_at(meta, q));
        }
    }
    lemma_first_closing_at(a, 0, k);
    assert(a.subrange(0, k - 1) =~= meta.drop_last());
    assert(a.subrange(k + 3, a.len() as int) =~= tail);
    if description.len() > 0 {
        assert(tail.drop_first().drop_first() =~= description);
        assert(is_space('\n'));
        assert(trim_start(description) == description);
        assert(trim_start(tail.drop_first()) == trim_start(description));
        assert(trim_start(tail) == trim_start(tail.drop_first()));
        assert(trim_end(description) == description);
    } else {
        assert(trim_start(tail) == tail);
    }
}

} // verus!
