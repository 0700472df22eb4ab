//! Unix paths as text.

use vstd::prelude::*;

use crate::text::{chars, fields, split, text, views};
use crate::text::{lemma_fields_around, lemma_one_field};

verus! {

/// `part` below `base`; a part that is absolute stands for itself.
pub open spec fn joined_path(base: Seq<char>, part: Seq<char>) -> Seq<char> {
    if part.len() > 0 && part[0] == '/' {
        part
    } else if base.len() == 0 || base.last() == '/' {
        base + part
    } else {
        base + seq!['/'] + part
    }
}

pub fn join(base: &str, part: &str) -> (r: String)
    ensures
        r@ == joined_path(base@, part@),
{
    let b: Vec<char> = chars(base);
    let p: Vec<char> = chars(part);
    if p.len() > 0 && p[0] == '/' {
        return text(&p);
    }
    let mut r: String = text(&b);
    if b.len() > 0 && b[b.len() - 1] != '/' {
        r.push('/');
    }
    r.append(part);
    assert(r@ =~= joined_path(base@, part@));
    r
}

/// One ordinary component, so joining it cannot leave the base.
pub open spec fn is_plain_component(name: Seq<char>) -> bool {
    &&& name.len() > 0
    &&& !name.contains('/')
    &&& name != seq!['.']
    &&& name != seq!['.', '.']
}

fn is_dot(s: &Vec<char>) -> (r: bool)
    ensures
        r == (s@ == seq!['.']),
{
    let r: bool = s.len() == 1 && s[0] == '.';
    assert(r ==> s@ =~= seq!['.']);
    r
}

fn is_dot_dot(s: &Vec<char>) -> (r: bool)
    ensures
        r == (s@ == seq!['.', '.']),
{
    let r: bool = s.len() == 2 && s[0] == '.' && s[1] == '.';
    assert(r ==> s@ =~= seq!['.', '.']);
    r
}

pub fn is_component(name: &str) -> (r: bool)
    ensures
        r == is_plain_component(name@),
{
    let s: Vec<char> = chars(name);
    let mut i: usize = 0;
    while i < s.len()
        invariant
            i <= s.len(),
            s@ == name@,
            forall|j: int| 0 <= j < i ==> s@[j] != '/',
        decreases s.len() - i,
    {
        if s[i] == '/' {
            assert(name@[i as int] == '/');
            return false;
        }
        i = i + 1;
    }
    s.len() > 0 && !is_dot(&s) && !is_dot_dot(&s)
}

/// The last of `parts` that names something: empty parts and dots do not, and
/// two dots name no entry.
pub open spec fn last_name(parts: Seq<Seq<char>>) -> Option<Seq<char>>
    decreases parts.len(),
{
    if parts.len() == 0 {
        None
    } else if parts.last().len() == 0 || parts.last() == seq!['.'] {
        last_name(parts.drop_last())
    } else if parts.last() == seq!['.', '.'] {
        None
    } else {
        Some(parts.last())
    }
}

/// The entry that a path ends in.
pub open spec fn entry_name(path: Seq<char>) -> Option<Seq<char>> {
    last_name(fields(path, '/'))
}

pub fn file_name(path: &str) -> (r: Option<String>)
    ensures
        match r {
            Some(name) => entry_name(path@) == Some(name@),
            None => entry_name(path@) is None,
        },
{
    let parts: Vec<Vec<char>> = split(&chars(path), '/');
    let ghost all = views(parts@);
    let mut n: usize = parts.len();
    assert(all.take(n as int) == all);
    while n > 0
        invariant
            n <= parts.len(),
            all == views(parts@),
            all == fields(path@, '/'),
            last_name(all) == last_name(all.take(n as int)),
        decreases n,
    {
        assert(all.take(n as int).drop_last() == all.take(n - 1));
        assert(all.take(n as int).last() == parts@[n - 1]@);
        let part: &Vec<char> = &parts[n - 1];
        if part.len() == 0 || is_dot(part) {
            n = n - 1;
        } else if is_dot_dot(part) {
            return None;
        } else {
            return Some(text(part));
        }
    }
    None
}

/// A component joined onto a base comes straight below it: the base is kept
/// whole, one separator at most is added, and the component is what the path
/// ends in.
pub proof fn component_stays_below(base: Seq<char>, name: Seq<char>)
    requires
        is_plain_component(name),
    ensures
        joined_path(base, name).take(base.len() as int) == base,
        base.len() > 0 && base.last() != '/' ==> joined_path(base, name) == base + seq!['/'] + name,
        base.len() > 0 && base.last() == '/' ==> joined_path(base, name) == base + name,
        entry_name(joined_path(base, name)) == Some(name),
{
    assert(name[0] != '/');
    lemma_one_field(name, '/');
    let p = joined_path(base, name);
    assert(p.take(base.len() as int) =~= base);
    if base.len() == 0 {
        assert(p =~= name);
        assert(fields(p, '/') == seq![name]);
    } else if base.last() == '/' {
        assert(p =~= base.drop_last() + seq!['/'] + name);
        lemma_fields_around(base.drop_last(), name, '/');
    } else {
        lemma_fields_around(base, name, '/');
    }
    assert(fields(p, '/').last() == name);
}

/// A path ends in the entry after its last slash; slashes and dots at its end
/// do not matter, and what two dots end names no entry.
pub proof fn a_path_ends_in_its_last_entry(path: Seq<char>, name: Seq<char>)
    requires
        is_plain_component(name),
    ensures
        entry_name(path + seq!['/'] + name) == Some(name),
        entry_name(path + seq!['/']) == entry_name(path),
        entry_name(path + seq!['/'] + seq!['.']) == entry_name(path),
        entry_name(path + seq!['/'] + seq!['.', '.']) is None,
        entry_name(name) == Some(name),
        entry_name(Seq::<char>::empty()) is None,
{
    reveal_with_fuel(last_name, 2);
    let none = Seq::<char>::empty();
    let dot = seq!['.'];
    let dots = seq!['.', '.'];
    lemma_one_field(name, '/');
    lemma_one_field(none, '/');
    lemma_one_field(dot, '/');
    lemma_one_field(dots, '/');
    lemma_fields_around(path, name, '/');
    lemma_fields_around(path, none, '/');
    lemma_fields_around(path, dot, '/');
    lemma_fields_around(path, dots, '/');
    assert(path + seq!['/'] + none =~= path + seq!['/']);
    let parts = fields(path, '/');
    assert((parts + seq![none]).drop_last() =~= parts);
    assert((parts + seq![dot]).drop_last() =~= parts);
    assert((parts + seq![dots]).last() == dots);
    assert((parts + seq![name]).last() == name);
    assert(seq![name].last() == name);
    assert(seq![none].drop_last() =~= seq![]);
}

/// What is absolute stands for itself below any base, and anything stands for
/// itself below none.
pub proof fn an_absolute_path_stands_for_itself(base: Seq<char>, part: Seq<char>)
    ensures
        joined_path(base, seq!['/'] + part) == seq!['/'] + part,
        joined_path(seq![], part) == part,
{
    assert(Seq::<char>::empty() + part =~= part);
}

} // verus!
