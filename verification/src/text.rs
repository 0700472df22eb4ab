//! Text as sequences of characters: the little of string handling that reading
//! and writing kernel trees takes.

use vstd::prelude::*;
use vstd::slice::slice_subrange;

verus! {

/// `String::push` appends one character and leaves the rest as it was.
pub assume_specification[ String::push ](s: &mut String, ch: char)
    ensures
        final(s)@ == old(s)@.push(ch),
;

/// `s` the way Rust's `Debug` prints a string: between quotes, and with what
/// does not print as itself escaped.
pub uninterp spec fn debug_quoted(s: Seq<char>) -> Seq<char>;

/// `format!` with `{:?}`, which is `<str as std::fmt::Debug>::fmt`. Nothing is
/// stated of the text it gives but that it depends on `s` alone: the rules of
/// what gets escaped are left unsaid.
#[verifier::external_body]
pub(crate) fn quote(s: &str) -> (r: String)
    ensures
        r@ == debug_quoted(s@),
{
    format!("{:?}", s)
}

/// The characters of a string.
pub fn chars(s: &str) -> (r: Vec<char>)
    ensures
        r@ == s@,
{
    let mut r: Vec<char> = Vec::new();
    for c in it: s.chars()
        invariant
            r@ == it.seq().take(it.index() as int),
            it.seq() == s@,
    {
        r.push(c);
    }
    r
}

/// The string that a run of characters spells.
pub fn text(s: &[char]) -> (r: String)
    ensures
        r@ == s@,
{
    let mut r: String = String::new();
    let mut i: usize = 0;
    while i < s.len()
        invariant
            i <= s.len(),
            r@ == s@.take(i as int),
        decreases s.len() - i,
    {
        r.push(s[i]);
        i = i + 1;
    }
    assert(s@.take(i as int) == s@);
    r
}

/// Two texts one after the other.
pub fn cat(a: &str, b: &str) -> (r: String)
    ensures
        r@ == a@ + b@,
{
    let mut r: String = String::new();
    r.append(a);
    r.append(b);
    assert(r@ =~= a@ + b@);
    r
}

/// Three texts one after the other.
pub fn glue(a: &str, b: &str, c: &str) -> (r: String)
    ensures
        r@ == a@ + b@ + c@,
{
    let mut r: String = String::new();
    r.append(a);
    r.append(b);
    r.append(c);
    assert(r@ =~= a@ + b@ + c@);
    r
}

/// Whether two runs of characters are the same.
pub fn same(a: &[char], b: &[char]) -> (r: bool)
    ensures
        r == (a@ == b@),
{
    if a.len() != b.len() {
        return false;
    }
    let mut i: usize = 0;
    while i < a.len()
        invariant
            a.len() == b.len(),
            i <= a.len(),
            forall|j: int| 0 <= j < i ==> a@[j] == b@[j],
        decreases a.len() - i,
    {
        if a[i] != b[i] {
            return false;
        }
        i = i + 1;
    }
    assert(a@ == b@);
    true
}

/// Whether two strings spell the same text.
pub fn same_text(a: &str, b: &str) -> (r: bool)
    ensures
        r == (a@ == b@),
{
    let a: Vec<char> = chars(a);
    let b: Vec<char> = chars(b);
    same(&a, &b)
}

// --- White space -------------------------------------------------------------

/// The characters Unicode gives the `White_Space` property.
pub open spec fn is_space(c: char) -> bool {
    ||| 0x9 <= c as u32 <= 0xd
    ||| c as u32 == 0x20
    ||| c as u32 == 0x85
    ||| c as u32 == 0xa0
    ||| c as u32 == 0x1680
    ||| 0x2000 <= c as u32 <= 0x200a
    ||| c as u32 == 0x2028
    ||| c as u32 == 0x2029
    ||| c as u32 == 0x202f
    ||| c as u32 == 0x205f
    ||| c as u32 == 0x3000
}

fn space(c: char) -> (r: bool)
    ensures
        r == is_space(c),
{
    let n: u32 = c as u32;
    (0x9 <= n && n <= 0xd) || n == 0x20 || n == 0x85 || n == 0xa0 || n == 0x1680 || (0x2000 <= n
        && n <= 0x200a) || n == 0x2028 || n == 0x2029 || n == 0x202f || n == 0x205f || n == 0x3000
}

pub open spec fn trimmed_start(s: Seq<char>) -> Seq<char>
    decreases s.len(),
{
    if s.len() > 0 && is_space(s[0]) {
        trimmed_start(s.skip(1))
    } else {
        s
    }
}

pub open spec fn trimmed_end(s: Seq<char>) -> Seq<char>
    decreases s.len(),
{
    if s.len() > 0 && is_space(s.last()) {
        trimmed_end(s.drop_last())
    } else {
        s
    }
}

/// `s` without the white space around it.
pub open spec fn trimmed(s: Seq<char>) -> Seq<char> {
    trimmed_end(trimmed_start(s))
}

fn trim_end(s: &[char]) -> (r: &[char])
    ensures
        r@ == trimmed_end(s@),
{
    let mut end: usize = s.len();
    assert(s@.take(end as int) == s@);
    while end > 0 && space(s[end - 1])
        invariant
            end <= s.len(),
            trimmed_end(s@.take(end as int)) == trimmed_end(s@),
        decreases end,
    {
        assert(s@.take(end as int).drop_last() == s@.take(end - 1));
        end = end - 1;
    }
    slice_subrange(s, 0, end)
}

pub fn trim(s: &[char]) -> (r: &[char])
    ensures
        r@ == trimmed(s@),
{
    let mut start: usize = 0;
    assert(s@.skip(0) == s@);
    while start < s.len() && space(s[start])
        invariant
            start <= s.len(),
            trimmed_start(s@.skip(start as int)) == trimmed_start(s@),
        decreases s.len() - start,
    {
        assert(s@.skip(start as int).skip(1) == s@.skip(start + 1));
        start = start + 1;
    }
    let rest: &[char] = slice_subrange(s, start, s.len());
    assert(rest@ == s@.skip(start as int));
    trim_end(rest)
}

/// `s` without any `0x` at its start.
pub open spec fn without_0x(s: Seq<char>) -> Seq<char>
    decreases s.len(),
{
    if s.len() >= 2 && s[0] == '0' && s[1] == 'x' {
        without_0x(s.skip(2))
    } else {
        s
    }
}

pub fn drop_0x(s: &[char]) -> (r: &[char])
    ensures
        r@ == without_0x(s@),
{
    let mut start: usize = 0;
    assert(s@.skip(0) == s@);
    while s.len() - start >= 2 && s[start] == '0' && s[start + 1] == 'x'
        invariant
            start <= s.len(),
            without_0x(s@.skip(start as int)) == without_0x(s@),
        decreases s.len() - start,
    {
        assert(s@.skip(start as int).skip(2) == s@.skip(start + 2));
        start = start + 2;
    }
    let rest: &[char] = slice_subrange(s, start, s.len());
    assert(rest@ == s@.skip(start as int));
    rest
}

/// The characters at the end of `s` that are not white space.
pub open spec fn ending_word(s: Seq<char>) -> Seq<char>
    decreases s.len(),
{
    if s.len() == 0 || is_space(s.last()) {
        seq![]
    } else {
        ending_word(s.drop_last()).push(s.last())
    }
}

/// The last of the words that white space separates, empty when there is none.
pub open spec fn last_word(s: Seq<char>) -> Seq<char> {
    ending_word(trimmed_end(s))
}

pub fn find_last_word(s: &[char]) -> (r: &[char])
    ensures
        r@ == last_word(s@),
{
    let t: &[char] = trim_end(s);
    let mut start: usize = t.len();
    assert(t@.take(start as int) == t@);
    assert(t@.skip(start as int) =~= seq![]);
    while start > 0 && !space(t[start - 1])
        invariant
            start <= t.len(),
            ending_word(t@) == ending_word(t@.take(start as int)) + t@.skip(start as int),
        decreases start,
    {
        assert(t@.take(start as int).drop_last() == t@.take(start - 1));
        assert(t@.skip(start - 1) =~= seq![t@[start - 1]] + t@.skip(start as int));
        start = start - 1;
        assert(ending_word(t@) =~= ending_word(t@.take(start as int)) + t@.skip(start as int));
    }
    let r: &[char] = slice_subrange(t, start, t.len());
    assert(r@ =~= ending_word(t@));
    r
}

// --- Fields ------------------------------------------------------------------

/// What `c` separates in `s`: one field more than there are separators.
pub open spec fn fields(s: Seq<char>, c: char) -> Seq<Seq<char>>
    decreases s.len(),
{
    if s.len() == 0 {
        seq![seq![]]
    } else {
        let before = fields(s.drop_last(), c);
        if s.last() == c {
            before.push(seq![])
        } else {
            before.drop_last().push(before.last().push(s.last()))
        }
    }
}

/// Text without a separator is one field.
pub proof fn lemma_one_field(s: Seq<char>, c: char)
    requires
        !s.contains(c),
    ensures
        fields(s, c) == seq![s],
    decreases s.len(),
{
    if s.len() == 0 {
        assert(s =~= seq![]);
    } else {
        assert(s[s.len() - 1] != c);
        assert forall|i: int| 0 <= i < s.drop_last().len() implies s.drop_last()[i] != c by {
            assert(s[i] != c);
        }
        lemma_one_field(s.drop_last(), c);
        assert(s.drop_last().push(s.last()) =~= s);
        assert(fields(s, c) =~= seq![s]);
    }
}

/// The fields around a separator are those before it and those after it.
pub proof fn lemma_fields_around(a: Seq<char>, b: Seq<char>, c: char)
    ensures
        fields(a + seq![c] + b, c) == fields(a, c) + fields(b, c),
    decreases b.len(),
{
    let s = a + seq![c] + b;
    lemma_some_field(b, c);
    if b.len() == 0 {
        assert(s.drop_last() =~= a);
        assert(fields(s, c) =~= fields(a, c) + fields(b, c));
    } else {
        assert(s.drop_last() =~= a + seq![c] + b.drop_last());
        lemma_fields_around(a, b.drop_last(), c);
        lemma_some_field(b.drop_last(), c);
        assert(fields(s, c) =~= fields(a, c) + fields(b, c));
    }
}

pub proof fn lemma_some_field(s: Seq<char>, c: char)
    ensures
        fields(s, c).len() >= 1,
    decreases s.len(),
{
    if s.len() > 0 {
        lemma_some_field(s.drop_last(), c);
    }
}

/// The runs of characters that a vector of vectors holds.
pub open spec fn views(v: Seq<Vec<char>>) -> Seq<Seq<char>> {
    Seq::new(v.len(), |i: int| v[i]@)
}

pub fn split(s: &[char], c: char) -> (r: Vec<Vec<char>>)
    ensures
        views(r@) == fields(s@, c),
        r.len() >= 1,
{
    let mut done: Vec<Vec<char>> = Vec::new();
    let mut current: Vec<char> = Vec::new();
    let mut i: usize = 0;
    assert(views(done@).push(current@) =~= fields(s@.take(0), c));
    while i < s.len()
        invariant
            i <= s.len(),
            views(done@).push(current@) == fields(s@.take(i as int), c),
        decreases s.len() - i,
    {
        assert(s@.take(i + 1).drop_last() == s@.take(i as int));
        let ghost before = views(done@);
        let ghost last = current@;
        assert(before.push(last).drop_last() == before);
        if s[i] == c {
            done.push(current);
            current = Vec::new();
            assert(views(done@) =~= before.push(last));
        } else {
            current.push(s[i]);
        }
        i = i + 1;
    }
    let ghost before = views(done@);
    let ghost last = current@;
    done.push(current);
    assert(views(done@) =~= before.push(last));
    assert(s@.take(i as int) == s@);
    done
}

/// Where `c` first stands in `s`, or the length of `s` when it does not.
pub open spec fn first_at(s: Seq<char>, c: char) -> int
    decreases s.len(),
{
    if s.len() == 0 || s[0] == c {
        0
    } else {
        1 + first_at(s.skip(1), c)
    }
}

pub proof fn lemma_first_at(s: Seq<char>, c: char, at: int)
    requires
        0 <= at < s.len(),
        s[at] == c,
        forall|i: int| 0 <= i < at ==> s[i] != c,
    ensures
        first_at(s, c) == at,
    decreases s.len(),
{
    if at > 0 {
        lemma_first_at(s.skip(1), c, at - 1);
    }
}

pub fn find_first(s: &[char], c: char) -> (r: usize)
    ensures
        r == first_at(s@, c),
        r <= s.len(),
{
    let mut i: usize = 0;
    assert(s@.skip(0) == s@);
    while i < s.len() && s[i] != c
        invariant
            i <= s.len(),
            first_at(s@, c) == i + first_at(s@.skip(i as int), c),
        decreases s.len() - i,
    {
        assert(s@.skip(i as int).skip(1) == s@.skip(i + 1));
        i = i + 1;
    }
    i
}

/// Whether `part` stands somewhere in `s`.
pub open spec fn has_part(s: Seq<char>, part: Seq<char>) -> bool {
    exists|i: int|
        0 <= i <= s.len() - part.len() && #[trigger] s.subrange(i, i + part.len()) == part
}

pub fn contains(s: &[char], part: &[char]) -> (r: bool)
    ensures
        r == has_part(s@, part@),
{
    if part.len() > s.len() {
        return false;
    }
    let end: usize = s.len() - part.len();
    let mut i: usize = 0;
    while i < end
        invariant
            end == s.len() - part.len(),
            i <= end,
            forall|j: int| 0 <= j < i ==> #[trigger] s@.subrange(j, j + part.len()) != part@,
        decreases end - i,
    {
        if same(slice_subrange(s, i, i + part.len()), part) {
            assert(s@.subrange(i as int, i + part.len()) == part@);
            return true;
        }
        i = i + 1;
    }
    assert(s@.subrange(end as int, end + part.len()) == s@.subrange(i as int, s.len() as int));
    same(slice_subrange(s, end, s.len()), part)
}

/// `s` without `prefix`, if it starts with it.
pub open spec fn after_prefix(s: Seq<char>, prefix: Seq<char>) -> Option<Seq<char>> {
    if prefix.len() <= s.len() && s.take(prefix.len() as int) == prefix {
        Some(s.skip(prefix.len() as int))
    } else {
        None
    }
}

pub fn strip_prefix<'a>(s: &'a [char], prefix: &str) -> (r: Option<&'a [char]>)
    ensures
        match r {
            Some(rest) => after_prefix(s@, prefix@) == Some(rest@),
            None => after_prefix(s@, prefix@) is None,
        },
{
    let p: Vec<char> = chars(prefix);
    if p.len() > s.len() {
        return None;
    }
    if same(slice_subrange(s, 0, p.len()), &p) {
        let rest: &[char] = slice_subrange(s, p.len(), s.len());
        assert(s@.take(p.len() as int) == s@.subrange(0, p.len() as int));
        assert(rest@ == s@.skip(p.len() as int));
        Some(rest)
    } else {
        assert(s@.take(p.len() as int) == s@.subrange(0, p.len() as int));
        None
    }
}

/// `s` with every `from` turned into `to`.
pub open spec fn replaced(s: Seq<char>, from: char, to: char) -> Seq<char> {
    Seq::new(
        s.len(),
        |i: int|
            if s[i] == from {
                to
            } else {
                s[i]
            },
    )
}

pub fn replace(s: &[char], from: char, to: char) -> (r: Vec<char>)
    ensures
        r@ == replaced(s@, from, to),
{
    let mut r: Vec<char> = Vec::new();
    let mut i: usize = 0;
    while i < s.len()
        invariant
            i <= s.len(),
            r@ =~= replaced(s@, from, to).take(i as int),
        decreases s.len() - i,
    {
        if s[i] == from {
            r.push(to);
        } else {
            r.push(s[i]);
        }
        i = i + 1;
    }
    assert(r@ =~= replaced(s@, from, to));
    r
}

/// `s` without any `c`.
pub open spec fn removed(s: Seq<char>, c: char) -> Seq<char>
    decreases s.len(),
{
    if s.len() == 0 {
        seq![]
    } else if s.last() == c {
        removed(s.drop_last(), c)
    } else {
        removed(s.drop_last(), c).push(s.last())
    }
}

pub fn remove_all(s: &[char], c: char) -> (r: Vec<char>)
    ensures
        r@ == removed(s@, c),
{
    let mut r: Vec<char> = Vec::new();
    let mut i: usize = 0;
    while i < s.len()
        invariant
            i <= s.len(),
            r@ == removed(s@.take(i as int), c),
        decreases s.len() - i,
    {
        assert(s@.take(i + 1).drop_last() =~= s@.take(i as int));
        if s[i] != c {
            r.push(s[i]);
        }
        i = i + 1;
    }
    assert(s@.take(i as int) =~= s@);
    r
}

pub proof fn lemma_removed_append(a: Seq<char>, b: Seq<char>, c: char)
    ensures
        removed(a + b, c) == removed(a, c) + removed(b, c),
    decreases b.len(),
{
    if b.len() == 0 {
        assert(a + b =~= a);
        assert(removed(a, c) + removed(b, c) =~= removed(a, c));
    } else {
        assert((a + b).drop_last() =~= a + b.drop_last());
        lemma_removed_append(a, b.drop_last(), c);
        assert(removed(a + b, c) =~= removed(a, c) + removed(b, c));
    }
}

pub proof fn lemma_nothing_removed(s: Seq<char>, c: char)
    requires
        !s.contains(c),
    ensures
        removed(s, c) == s,
    decreases s.len(),
{
    if s.len() == 0 {
        assert(removed(s, c) =~= s);
    } else {
        assert(s[s.len() - 1] != c);
        assert(!s.drop_last().contains(c));
        lemma_nothing_removed(s.drop_last(), c);
        assert(s.drop_last().push(s.last()) =~= s);
    }
}

/// `items` one after the other, with `separator` between them.
pub open spec fn joined(items: Seq<Seq<char>>, separator: Seq<char>) -> Seq<char>
    decreases items.len(),
{
    if items.len() == 0 {
        seq![]
    } else if items.len() == 1 {
        items[0]
    } else {
        joined(items.drop_last(), separator) + separator + items.last()
    }
}

/// The texts that a vector of strings holds.
pub open spec fn texts(v: Seq<String>) -> Seq<Seq<char>> {
    Seq::new(v.len(), |i: int| v[i]@)
}

pub fn join_all(items: &Vec<String>, separator: &str) -> (r: String)
    ensures
        r@ == joined(texts(items@), separator@),
{
    let mut r: String = String::new();
    let mut i: usize = 0;
    while i < items.len()
        invariant
            i <= items.len(),
            r@ == joined(texts(items@).take(i as int), separator@),
        decreases items.len() - i,
    {
        let ghost t = texts(items@);
        assert(t.take(i + 1).drop_last() =~= t.take(i as int));
        if i > 0 {
            r.append(separator);
        }
        r.append(items[i].as_str());
        assert(r@ =~= joined(t.take(i + 1), separator@));
        i = i + 1;
    }
    assert(texts(items@).take(i as int) =~= texts(items@));
    r
}

// --- What holds of text ------------------------------------------------------

/// White space is what Unicode calls so; in ASCII it is the space and what the
/// keys for tabs and line ends give.
pub proof fn white_space_is_what_unicode_says(c: char)
    ensures
        (c as u32) < 0x80 ==> (is_space(c) <==> c == ' ' || c == '\t' || c == '\n' || c == '\r' || c
            as u32 == 11 || c as u32 == 12),
        c as u32 >= 0x80 ==> (is_space(c) <==> c as u32 == 133 || c as u32 == 160 || c as u32
            == 5760 || 8192 <= c as u32 <= 8202 || c as u32 == 8232 || c as u32 == 8233 || c as u32
            == 8239 || c as u32 == 8287 || c as u32 == 12288),
{
}

/// Whether a text is nothing but white space.
pub open spec fn is_blank(s: Seq<char>) -> bool {
    forall|i: int| 0 <= i < s.len() ==> is_space(#[trigger] s[i])
}

/// Whether a text neither starts nor ends in white space.
pub open spec fn is_trim(s: Seq<char>) -> bool {
    s.len() > 0 ==> !is_space(s[0]) && !is_space(s.last())
}

proof fn lemma_trimmed_start(a: Seq<char>, s: Seq<char>)
    requires
        is_blank(a),
        s.len() > 0 ==> !is_space(s[0]),
    ensures
        trimmed_start(a + s) == s,
    decreases a.len(),
{
    if a.len() == 0 {
        assert(a + s =~= s);
    } else {
        assert(is_space(a[0]));
        assert((a + s).skip(1) =~= a.skip(1) + s);
        assert(is_blank(a.skip(1)));
        lemma_trimmed_start(a.skip(1), s);
    }
}

proof fn lemma_trimmed_end(s: Seq<char>, b: Seq<char>)
    requires
        is_blank(b),
        s.len() > 0 ==> !is_space(s.last()),
    ensures
        trimmed_end(s + b) == s,
    decreases b.len(),
{
    if b.len() == 0 {
        assert(s + b =~= s);
    } else {
        assert(is_space(b[b.len() - 1]));
        assert((s + b).drop_last() =~= s + b.drop_last());
        assert(is_blank(b.drop_last()));
        lemma_trimmed_end(s, b.drop_last());
    }
}

/// Trimming takes the white space off both ends of a text, all of it, and
/// nothing else.
pub proof fn trimming_takes_off_what_is_around(a: Seq<char>, s: Seq<char>, b: Seq<char>)
    requires
        is_blank(a),
        is_blank(b),
        is_trim(s),
    ensures
        trimmed(a + s + b) == s,
{
    if s.len() == 0 {
        assert(a + s + b =~= (a + b) + s);
        assert(is_blank(a + b)) by {
            assert forall|i: int| 0 <= i < (a + b).len() implies is_space(#[trigger] (a + b)[i]) by {
                if i < a.len() {
                    assert(is_space(a[i]));
                } else {
                    assert(is_space(b[i - a.len()]));
                }
            }
        }
        lemma_trimmed_start(a + b, s);
        lemma_trimmed_end(s, seq![]);
        assert(s + seq![] =~= s);
    } else {
        assert(a + s + b =~= a + (s + b));
        assert((s + b)[0] == s[0]);
        lemma_trimmed_start(a, s + b);
        lemma_trimmed_end(s, b);
    }
}

/// A `0x` in front of a text does not matter, however often it stands there; a
/// text without one is left as it is.
pub proof fn a_leading_0x_does_not_matter(s: Seq<char>)
    ensures
        without_0x(seq!['0', 'x'] + s) == without_0x(s),
        !(s.len() >= 2 && s[0] == '0' && s[1] == 'x') ==> without_0x(s) == s,
{
    assert((seq!['0', 'x'] + s).skip(2) =~= s);
}

proof fn lemma_ending_word(a: Seq<char>, w: Seq<char>)
    requires
        a.len() > 0 ==> is_space(a.last()),
        forall|i: int| 0 <= i < w.len() ==> !is_space(#[trigger] w[i]),
    ensures
        ending_word(a + w) == w,
    decreases w.len(),
{
    if w.len() == 0 {
        assert(a + w =~= a);
        assert(ending_word(a + w) =~= w);
    } else {
        assert(!is_space(w[w.len() - 1]));
        assert((a + w).drop_last() =~= a + w.drop_last());
        assert forall|i: int| 0 <= i < w.drop_last().len() implies !is_space(
            #[trigger] w.drop_last()[i],
        ) by {
            assert(w.drop_last()[i] == w[i]);
        }
        lemma_ending_word(a, w.drop_last());
        assert(w.drop_last().push(w.last()) =~= w);
    }
}

/// The last word of a text is what stands after the last white space in it,
/// but for white space at its end.
pub proof fn the_last_word_ends_a_text(a: Seq<char>, w: Seq<char>, b: Seq<char>)
    requires
        a.len() > 0 ==> is_space(a.last()),
        w.len() > 0,
        forall|i: int| 0 <= i < w.len() ==> !is_space(#[trigger] w[i]),
        is_blank(b),
    ensures
        last_word(a + w + b) == w,
{
    assert(!is_space(w[w.len() - 1]));
    assert((a + w).last() == w[w.len() - 1]);
    lemma_trimmed_end(a + w, b);
    lemma_ending_word(a, w);
}

/// A prefix is taken off exactly where a text starts with it.
pub proof fn a_prefix_is_taken_off(prefix: Seq<char>, s: Seq<char>, t: Seq<char>)
    ensures
        after_prefix(prefix + s, prefix) == Some(s),
        after_prefix(t, prefix) matches Some(rest) ==> t == prefix + rest,
{
    let n = prefix.len() as int;
    assert((prefix + s).take(n) =~= prefix);
    assert((prefix + s).skip(n) =~= s);
    if let Some(rest) = after_prefix(t, prefix) {
        assert(t =~= t.take(n) + t.skip(n));
    }
}

/// Removing a character leaves all the others, in their order.
pub proof fn removing_keeps_the_others(s: Seq<char>, c: char)
    ensures
        removed(s, c) == s.filter(|x: char| x != c),
    decreases s.len(),
{
    reveal(Seq::filter);
    if s.len() > 0 {
        removing_keeps_the_others(s.drop_last(), c);
    }
}

/// Replacing a character changes all of its kind and no other.
pub proof fn replacing_changes_one_character(s: Seq<char>, from: char, to: char, i: int)
    requires
        0 <= i < s.len(),
    ensures
        replaced(s, from, to).len() == s.len(),
        s[i] == from ==> replaced(s, from, to)[i] == to,
        s[i] != from ==> replaced(s, from, to)[i] == s[i],
{
}

/// Two lists of texts joined as one are what each comes to, with a separator
/// between.
pub proof fn joining_puts_a_separator_between(
    a: Seq<Seq<char>>,
    b: Seq<Seq<char>>,
    separator: Seq<char>,
)
    requires
        a.len() > 0,
        b.len() > 0,
    ensures
        joined(a + b, separator) == joined(a, separator) + separator + joined(b, separator),
        joined(seq![a[0]], separator) == a[0],
        joined(Seq::<Seq<char>>::empty(), separator) == Seq::<char>::empty(),
    decreases b.len(),
{
    let all = a + b;
    assert(all.last() == b.last());
    if b.len() == 1 {
        assert(all.drop_last() =~= a);
    } else {
        let front = b.drop_last();
        assert(all.drop_last() =~= a + front);
        joining_puts_a_separator_between(a, front, separator);
        assert(joined(all, separator) =~= joined(a, separator) + separator + joined(b, separator));
    }
}

/// Where a character first stands nothing before it is that character.
pub proof fn the_first_place_is_the_first(s: Seq<char>, c: char)
    ensures
        0 <= first_at(s, c) <= s.len(),
        first_at(s, c) < s.len() <==> s.contains(c),
        first_at(s, c) < s.len() ==> s[first_at(s, c)] == c,
        forall|i: int| 0 <= i < first_at(s, c) ==> #[trigger] s[i] != c,
    decreases s.len(),
{
    if s.len() > 0 {
        let rest = s.skip(1);
        the_first_place_is_the_first(rest, c);
        assert(s[0] == c ==> s.contains(c));
        if s[0] != c {
            assert forall|i: int| 0 <= i < first_at(s, c) implies #[trigger] s[i] != c by {
                if i > 0 {
                    assert(s[i] == rest[i - 1]);
                }
            }
            if s.contains(c) {
                let i = choose|i: int| 0 <= i < s.len() && s[i] == c;
                assert(rest[i - 1] == c);
            }
            if rest.contains(c) {
                let i = choose|i: int| 0 <= i < rest.len() && rest[i] == c;
                assert(s[i + 1] == c);
            }
        }
    }
}

/// A character other than the separator stands in a text exactly where it stands
/// in one of its fields, and the separator in none of them.
pub proof fn fields_keep_the_other_characters(s: Seq<char>, c: char, x: char)
    requires
        x != c,
    ensures
        s.contains(x) <==> exists|i: int|
            0 <= i < fields(s, c).len() && (#[trigger] fields(s, c)[i]).contains(x),
        forall|i: int| 0 <= i < fields(s, c).len() ==> !(#[trigger] fields(s, c)[i]).contains(c),
    decreases s.len(),
{
    let all = fields(s, c);
    if s.len() == 0 {
        assert(all[0] =~= seq![]);
    } else {
        let front = s.drop_last();
        let before = fields(front, c);
        let n = before.len() - 1;
        fields_keep_the_other_characters(front, c, x);
        lemma_some_field(front, c);
        assert forall|i: int| 0 <= i < all.len() implies !(#[trigger] all[i]).contains(c) by {
            if s.last() == c {
                if i < before.len() {
                    assert(all[i] == before[i]);
                } else {
                    assert(all[i] =~= seq![]);
                }
            } else if i < n {
                assert(all[i] == before[i]);
            } else {
                assert(!before[n].contains(c));
                assert(all[i] == before[n].push(s.last()));
                if all[i].contains(c) {
                    let j = choose|j: int| 0 <= j < all[i].len() && all[i][j] == c;
                    assert(before[n][j] == c);
                }
            }
        }
        if s.contains(x) {
            if s.last() == x {
                assert(all[n] == before[n].push(x));
                assert(all[n][all[n].len() - 1] == x);
                assert(all[n].contains(x));
            } else {
                let j = choose|j: int| 0 <= j < s.len() && s[j] == x;
                assert(front[j] == x);
                let i = choose|i: int| 0 <= i < before.len() && (#[trigger] before[i]).contains(x);
                let k = choose|k: int| 0 <= k < before[i].len() && before[i][k] == x;
                assert(all[i][k] == x);
                assert(all[i].contains(x));
            }
        }
        if exists|i: int| 0 <= i < all.len() && (#[trigger] all[i]).contains(x) {
            let i = choose|i: int| 0 <= i < all.len() && (#[trigger] all[i]).contains(x);
            let k = choose|k: int| 0 <= k < all[i].len() && all[i][k] == x;
            if i < before.len() && k < before[i].len() {
                assert(before[i][k] == x);
                assert(before[i].contains(x));
                let j = choose|j: int| 0 <= j < front.len() && front[j] == x;
                assert(s[j] == x);
            } else {
                assert(s[s.len() - 1] == x);
            }
        }
    }
}

/// What is part of a text is part of one that the text is part of.
pub proof fn lemma_part_of_more(before: Seq<char>, s: Seq<char>, after: Seq<char>, part: Seq<char>)
    requires
        has_part(s, part),
    ensures
        has_part(before + s + after, part),
{
    let i = choose|i: int|
        0 <= i <= s.len() - part.len() && #[trigger] s.subrange(i, i + part.len()) == part;
    let all = before + s + after;
    let at = before.len() + i;
    assert(all.subrange(at, at + part.len()) =~= s.subrange(i, i + part.len()));
}

/// Every text that is joined is part of what they come to.
pub proof fn joining_keeps_every_text(items: Seq<Seq<char>>, separator: Seq<char>, i: int)
    requires
        0 <= i < items.len(),
    ensures
        has_part(joined(items, separator), items[i]),
    decreases items.len(),
{
    let all = joined(items, separator);
    let item = items[i];
    let none = Seq::<char>::empty();
    assert(has_part(item, item)) by {
        assert(item.subrange(0, 0 + item.len() as int) =~= item);
    }
    if items.len() == 1 {
        joining_puts_a_separator_between(items, items, separator);
        assert(items =~= seq![items[0]]);
    } else if i == items.len() - 1 {
        let front = joined(items.drop_last(), separator) + separator;
        lemma_part_of_more(front, item, none, item);
        assert(front + item + none =~= all);
    } else {
        let front = joined(items.drop_last(), separator);
        assert(items.drop_last()[i] == item);
        joining_keeps_every_text(items.drop_last(), separator, i);
        lemma_part_of_more(none, front, separator + items.last(), item);
        assert(none + front + (separator + items.last()) =~= all);
    }
}

/// Texts are shown one by one, each in its place.
pub proof fn texts_are_shown_one_by_one(strings: Seq<String>, slices: Seq<Vec<char>>, i: int)
    ensures
        texts(strings).len() == strings.len(),
        0 <= i < strings.len() ==> texts(strings)[i] == strings[i]@,
        views(slices).len() == slices.len(),
        0 <= i < slices.len() ==> views(slices)[i] == slices[i]@,
{
}

} // verus!
