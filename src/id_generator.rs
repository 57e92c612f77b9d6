//! Task identifiers: written into file names, read back from them, and the
//! next free one derived from the names present in a directory.
use vstd::prelude::*;
use crate::text::{push_char, texts};

verus! {

/// Errors of identifier assignment.
#[derive(Debug)]
pub enum IdError {
    Io(String),
    InvalidFilename(String),
    /// The largest identifier present is already the largest `u64`.
    Exhausted,
}

/// Generates sequential identifiers from the files present.
pub struct IdGenerator;

/// The decimal digit character for `d < 10`.
pub open spec fn digit_char(d: nat) -> char {
    if d == 0 {
        '0'
    } else if d == 1 {
        '1'
    } else if d == 2 {
        '2'
    } else if d == 3 {
        '3'
    } else if d == 4 {
        '4'
    } else if d == 5 {
        '5'
    } else if d == 6 {
        '6'
    } else if d == 7 {
        '7'
    } else if d == 8 {
        '8'
    } else {
        '9'
    }
}

pub open spec fn is_digit(c: char) -> bool {
    '0' <= c && c <= '9'
}

/// The value of a digit character.
pub open spec fn digit_value(c: char) -> nat {
    ((c as u32) as int - ('0' as u32) as int) as nat
}

/// `n` in decimal, without leading zeros.
pub open spec fn dec(n: nat) -> Seq<char>
    decreases n,
{
    if n < 10 {
        seq![digit_char(n)]
    } else {
        dec(n / 10).push(digit_char(n % 10))
    }
}

/// `n` in decimal, padded with zeros to at least three digits.
pub open spec fn pad3(n: nat) -> Seq<char> {
    let d = dec(n);
    if d.len() >= 3 {
        d
    } else if d.len() == 2 {
        seq!['0'] + d
    } else {
        seq!['0', '0'] + d
    }
}

/// The file name of a task: `{slug}-{id}.md`, the id padded to three digits.
pub open spec fn task_file_name(slug: Seq<char>, id: u64) -> Seq<char> {
    slug + seq!['-'] + pad3(id as nat) + seq!['.', 'm', 'd']
}

/// Index of the last occurrence of `c` in `s`, or -1.
pub open spec fn last_index(s: Seq<char>, c: char) -> int
    decreases s.len(),
{
    if s.len() == 0 {
        -1
    } else if s.last() == c {
        s.len() - 1
    } else {
        last_index(s.drop_last(), c)
    }
}

/// The name without its extension: the part before the last dot, unless that
/// dot opens the name or there is none.
pub open spec fn file_stem(name: Seq<char>) -> Seq<char> {
    let k = last_index(name, '.');
    if k > 0 {
        name.subrange(0, k)
    } else {
        name
    }
}

/// Whether a file name has the extension `md`.
pub open spec fn is_task_file(name: Seq<char>) -> bool {
    name.len() >= 4 && name.subrange(name.len() - 3, name.len() as int) == seq!['.', 'm', 'd']
}

pub open spec fn all_digits(s: Seq<char>) -> bool {
    forall|i: int| 0 <= i < s.len() ==> is_digit(#[trigger] s[i])
}

/// The number a string of digits writes.
pub open spec fn digits_value(s: Seq<char>) -> nat
    decreases s.len(),
{
    if s.len() == 0 {
        0
    } else {
        digits_value(s.drop_last()) * 10 + digit_value(s.last())
    }
}

/// How `u64::from_str` reads text: an optional `+`, then one or more decimal
/// digits whose value fits in 64 bits.
/// The text after an optional leading `+`.
pub open spec fn unsigned_part(s: Seq<char>) -> Seq<char> {
    if s.len() > 0 && s[0] == '+' {
        s.drop_first()
    } else {
        s
    }
}

pub open spec fn parse_u64(s: Seq<char>) -> Option<u64> {
    let d = unsigned_part(s);
    if d.len() > 0 && all_digits(d) && digits_value(d) <= u64::MAX {
        Some(digits_value(d) as u64)
    } else {
        None
    }
}

/// The identifier a file name carries: the number after the last hyphen of
/// its stem.
pub open spec fn id_of_name(name: Seq<char>) -> Option<u64> {
    let stem = file_stem(name);
    let h = last_index(stem, '-');
    if h < 0 {
        None
    } else {
        parse_u64(stem.subrange(h + 1, stem.len() as int))
    }
}

/// The identifier of a directory entry, counted only for `.md` files.
pub open spec fn entry_id(name: Seq<char>) -> Option<u64> {
    if is_task_file(name) {
        id_of_name(name)
    } else {
        None
    }
}

/// The largest identifier among the names, 0 when there is none.
pub open spec fn max_id(names: Seq<Seq<char>>) -> nat
    decreases names.len(),
{
    if names.len() == 0 {
        0
    } else {
        let rest = max_id(names.drop_last());
        match entry_id(names.last()) {
            Some(id) => if id as nat > rest {
                id as nat
            } else {
                rest
            },
            None => rest,
        }
    }
}

pub(crate) proof fn lemma_last_index_at(s: Seq<char>, c: char, k: int)
    requires
        0 <= k < s.len(),
        s[k] == c,
        forall|j: int| k < j < s.len() ==> s[j] != c,
    ensures
        last_index(s, c) == k,
    decreases s.len(),
{
    if k < s.len() - 1 {
        lemma_last_index_at(s.drop_last(), c, k);
    }
}

pub(crate) proof fn lemma_last_index_none(s: Seq<char>, c: char)
    requires
        forall|j: int| 0 <= j < s.len() ==> s[j] != c,
    ensures
        last_index(s, c) == -1,
    decreases s.len(),
{
    if s.len() > 0 {
        lemma_last_index_none(s.drop_last(), c);
    }
}

proof fn lemma_digit_char(d: nat)
    requires
        d < 10,
    ensures
        is_digit(digit_char(d)),
        digit_value(digit_char(d)) == d,
        digit_char(d) != '-',
        digit_char(d) != '.',
{
}

proof fn lemma_dec(n: nat)
    ensures
        dec(n).len() >= 1,
        all_digits(dec(n)),
        digits_value(dec(n)) == n,
        n > 0 ==> dec(n)[0] != '0',
    decreases n,
{
    if n < 10 {
        lemma_digit_char(n);
        assert(dec(n).drop_last() =~= Seq::<char>::empty());
        assert(digits_value(dec(n)) == digits_value(Seq::<char>::empty()) * 10 + digit_value(
            digit_char(n),
        ));
    } else {
        lemma_dec(n / 10);
        lemma_digit_char(n % 10);
        let d = dec(n);
        assert(d.drop_last() =~= dec(n / 10));
        assert(d.last() == digit_char(n % 10));
        assert(d[0] == dec(n / 10)[0]);
        assert((n / 10) * 10 + n % 10 == n);
    }
}

proof fn lemma_digits_value_concat(a: Seq<char>, b: Seq<char>)
    requires
        digits_value(a) == 0,
    ensures
        digits_value(a + b) == digits_value(b),
    decreases b.len(),
{
    if b.len() == 0 {
        assert(a + b =~= a);
    } else {
        assert((a + b).drop_last() =~= a + b.drop_last());
        lemma_digits_value_concat(a, b.drop_last());
    }
}

proof fn lemma_zeros_value(z: Seq<char>)
    requires
        forall|i: int| 0 <= i < z.len() ==> z[i] == '0',
    ensures
        digits_value(z) == 0,
    decreases z.len(),
{
    if z.len() > 0 {
        lemma_zeros_value(z.drop_last());
    }
}

/// The padded decimal form of a number reads back as that number.
pub proof fn lemma_pad3_parses(n: u64)
    ensures
        parse_u64(pad3(n as nat)) == Some(n),
        forall|i: int| 0 <= i < pad3(n as nat).len() ==> is_digit(#[trigger] pad3(n as nat)[i]),
{
    lemma_dec(n as nat);
    let d = dec(n as nat);
    let p = pad3(n as nat);
    if d.len() < 3 {
        let z: Seq<char> = if d.len() == 2 {
            seq!['0']
        } else {
            seq!['0', '0']
        };
        assert(p == z + d);
        lemma_zeros_value(z);
        lemma_digits_value_concat(z, d);
        assert forall|i: int| 0 <= i < p.len() implies is_digit(#[trigger] p[i]) by {
            if i >= z.len() {
                assert(p[i] == d[i - z.len()]);
            }
        }
    }
    assert(p[0] != '+');
}

/// A task's file name gives back its identifier, whatever the slug.
pub proof fn lemma_file_name_id(slug: Seq<char>, id: u64)
    ensures
        is_task_file(task_file_name(slug, id)),
        entry_id(task_file_name(slug, id)) == Some(id),
{
    lemma_pad3_parses(id);
    let p = pad3(id as nat);
    let ext = seq!['.', 'm', 'd'];
    let stem = slug + seq!['-'] + p;
    let name = task_file_name(slug, id);
    assert(name == stem + ext);
    assert(name.subrange(name.len() - 3, name.len() as int) =~= ext);
    lemma_last_index_at(name, '.', stem.len() as int);
    assert(name.subrange(0, stem.len() as int) =~= stem);
    assert(file_stem(name) == stem);
    assert forall|j: int| slug.len() < j < stem.len() implies stem[j] != '-' by {
        assert(stem[j] == p[j - slug.len() - 1]);
    }
    lemma_last_index_at(stem, '-', slug.len() as int);
    assert(stem.subrange(slug.len() as int + 1, stem.len() as int) =~= p);
}

/// The decimal digit character for `d < 10`.
fn digit_to_char(d: u64) -> (c: char)
    requires
        d < 10,
    ensures
        c == digit_char(d as nat),
{
    if d == 0 {
        '0'
    } else if d == 1 {
        '1'
    } else if d == 2 {
        '2'
    } else if d == 3 {
        '3'
    } else if d == 4 {
        '4'
    } else if d == 5 {
        '5'
    } else if d == 6 {
        '6'
    } else if d == 7 {
        '7'
    } else if d == 8 {
        '8'
    } else {
        '9'
    }
}

/// Appends `m` in decimal.
fn append_decimal(out: &mut String, m: u64)
    ensures
        final(out)@ == old(out)@ + dec(m as nat),
    decreases m,
{
    if m >= 10 {
        append_decimal(out, m / 10);
    }
    push_char(out, digit_to_char(m % 10));
    proof {
        if m >= 10 {
            assert(dec(m as nat) == dec((m / 10) as nat).push(digit_char((m % 10) as nat)));
        }
    }
    assert(final(out)@ =~= old(out)@ + dec(m as nat));
}

/// Renders `n` in decimal.
pub fn render_u64(n: u64) -> (r: String)
    ensures
        r@ == dec(n as nat),
{
    let mut r = String::new();
    append_decimal(&mut r, n);
    assert(r@ =~= dec(n as nat));
    r
}

/// Builds `{slug}-{id}.md`, the id padded to three digits.
pub fn file_name_for(slug: &str, id: u64) -> (r: String)
    ensures
        r@ == task_file_name(slug@, id),
{
    let digits = render_u64(id);
    proof {
        lemma_dec(id as nat);
    }
    let mut r = String::from_str(slug);
    push_char(&mut r, '-');
    let n = digits.as_str().unicode_len();
    if n == 1 {
        push_char(&mut r, '0');
        push_char(&mut r, '0');
    } else if n == 2 {
        push_char(&mut r, '0');
    }
    r.append(digits.as_str());
    push_char(&mut r, '.');
    push_char(&mut r, 'm');
    push_char(&mut r, 'd');
    assert(r@ =~= task_file_name(slug@, id));
    r
}

/// Finds the last occurrence of `c`, as `last_index` does.
pub(crate) fn find_last(s: &str, c: char) -> (r: Option<usize>)
    ensures
        match r {
            Some(k) => last_index(s@, c) == k as int && k < s@.len(),
            None => last_index(s@, c) == -1,
        },
{
    let n = s.unicode_len();
    let mut i: usize = n;
    while i > 0
        invariant
            i <= n == s@.len(),
            forall|j: int| i <= j < n ==> s@[j] != c,
        decreases i,
    {
        if s.get_char(i - 1) == c {
            proof {
                lemma_last_index_at(s@, c, i - 1);
            }
            return Some(i - 1);
        }
        i = i - 1;
    }
    proof {
        lemma_last_index_none(s@, c);
    }
    None
}

proof fn lemma_digits_value_push(s: Seq<char>, c: char)
    ensures
        digits_value(s.push(c)) == digits_value(s) * 10 + digit_value(c),
{
    assert(s.push(c).drop_last() =~= s);
}

proof fn lemma_digits_value_grows(s: Seq<char>, i: int)
    requires
        0 <= i <= s.len(),
    ensures
        digits_value(s.subrange(0, i)) <= digits_value(s),
    decreases s.len() - i,
{
    if i < s.len() {
        lemma_digits_value_grows(s, i + 1);
        lemma_digits_value_push(s.subrange(0, i), s[i]);
        assert(s.subrange(0, i + 1) =~= s.subrange(0, i).push(s[i]));
    } else {
        assert(s.subrange(0, i) =~= s);
    }
}

/// Reads text as `u64::from_str` does.
pub fn parse_u64_text(s: &str) -> (r: Option<u64>)
    ensures
        r == parse_u64(s@),
{
    let n = s.unicode_len();
    let start: usize = if n > 0 && s.get_char(0) == '+' {
        1
    } else {
        0
    };
    let ghost d = unsigned_part(s@);
    assert(d =~= s@.subrange(start as int, n as int));
    if start == n {
        return None;
    }
    let mut v: u64 = 0;
    let mut i: usize = start;
    while i < n
        invariant
            start <= i <= n == s@.len(),
            start < n,
            d == unsigned_part(s@),
            d == s@.subrange(start as int, n as int),
            all_digits(d.subrange(0, i - start)),
            v as nat == digits_value(d.subrange(0, i - start)),
        decreases n - i,
    {
        let c = s.get_char(i);
        let ghost k = i - start;
        assert(d[k] == c);
        assert(d.subrange(0, k + 1) =~= d.subrange(0, k).push(c));
        proof {
            lemma_digits_value_push(d.subrange(0, k), c);
        }
        if !('0' <= c && c <= '9') {
            assert(!is_digit(d[k]));
            assert(!all_digits(d));
            assert(parse_u64(s@) == None::<u64>);
            return None;
        }
        let dv = (c as u32 - '0' as u32) as u64;
        assert(dv as nat == digit_value(c));
        if v > 1844674407370955161 || (v == 1844674407370955161 && dv > 5) {
            proof {
                lemma_digits_value_grows(d, k + 1);
                let vv = v as nat;
                let dd = dv as nat;
                assert(vv * 10 + dd > u64::MAX) by (nonlinear_arith)
                    requires
                        vv > 1844674407370955161 || (vv == 1844674407370955161 && dd > 5),
                ;
                assert(digits_value(d.subrange(0, k + 1)) == vv * 10 + dd);
                assert(digits_value(d) > u64::MAX);
                assert(parse_u64(s@) == None::<u64>);
            }
            return None;
        }
        v = v * 10 + dv;
        i = i + 1;
    }
    assert(d.subrange(0, n - start) =~= d);
    Some(v)
}

/// Whether a file name has the extension `md`.
pub fn is_task_file_name(name: &str) -> (r: bool)
    ensures
        r == is_task_file(name@),
{
    let n = name.unicode_len();
    if n < 4 {
        return false;
    }
    let r = name.get_char(n - 3) == '.' && name.get_char(n - 2) == 'm' && name.get_char(n - 1)
        == 'd';
    assert(r == (name@.subrange(n - 3, n as int) =~= seq!['.', 'm', 'd']));
    r
}

impl IdGenerator {
    /// The identifier in a task file name: the number after the last hyphen
    /// of the name's stem.
    pub fn extract_id_from_filename(name: &str) -> (r: Option<u64>)
        ensures
            r == id_of_name(name@),
    {
        let stem: &str = match find_last(name, '.') {
            Some(k) if k > 0 => name.substring_char(0, k),
            _ => name,
        };
        assert(stem@ == file_stem(name@));
        match find_last(stem, '-') {
            None => None,
            Some(h) => {
                let n = stem.unicode_len();
                let tail = stem.substring_char(h + 1, n);
                parse_u64_text(tail)
            },
        }
    }

    /// The largest identifier among the `.md` names, 0 when there is none.
    pub fn find_max_id(names: &Vec<String>) -> (r: u64)
        ensures
            r as nat == max_id(texts(names@)),
    {
        let ghost all = texts(names@);
        let mut max: u64 = 0;
        let mut i: usize = 0;
        while i < names.len()
            invariant
                i <= names.len(),
                all == texts(names@),
                max as nat == max_id(all.subrange(0, i as int)),
            decreases names.len() - i,
        {
            let name = names[i].as_str();
            assert(all.subrange(0, i + 1).drop_last() =~= all.subrange(0, i as int));
            assert(all.subrange(0, i + 1).last() == name@);
            if is_task_file_name(name) {
                match IdGenerator::extract_id_from_filename(name) {
                    Some(id) => {
                        if id > max {
                            max = id;
                        }
                    },
                    None => {},
                }
            }
            i = i + 1;
        }
        assert(all.subrange(0, names.len() as int) =~= all);
        max
    }

    /// One more than the largest identifier among the `.md` names (1 for
    /// none); fails only when that largest one is `u64::MAX`.
    pub fn next_id(names: &Vec<String>) -> (r: Result<u64, IdError>)
        ensures
            max_id(texts(names@)) < u64::MAX ==> (r matches Ok(id) && id as nat
                == max_id(texts(names@)) + 1),
            max_id(texts(names@)) == u64::MAX ==> r matches Err(
                IdError::Exhausted,
            ),
    {
        let max = IdGenerator::find_max_id(names);
        if max == u64::MAX {
            Err(IdError::Exhausted)
        } else {
            Ok(max + 1)
        }
    }
}

} // verus!
