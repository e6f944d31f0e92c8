//! Paths as texts with `/` between their parts.
use crate::text::{chars_of, has_start, same_text, search_last, split, text_of};
use vstd::prelude::*;

verus! {

/// The path starts at the root.
pub open spec fn is_absolute(path: Seq<char>) -> bool {
    path.len() > 0 && path[0] == '/'
}

/// Nothing between two separators, and `.`, name no part of their own.
pub open spec fn is_part(text: Seq<char>) -> bool {
    text.len() > 0 && text != "."@
}

/// The texts that name parts, in order.
pub open spec fn named(texts: Seq<Seq<char>>) -> Seq<Seq<char>>
    decreases texts.len(),
{
    if texts.len() == 0 {
        texts
    } else if is_part(texts.last()) {
        named(texts.drop_last()).push(texts.last())
    } else {
        named(texts.drop_last())
    }
}

/// The named parts of a path.
pub open spec fn parts(path: Seq<char>) -> Seq<Seq<char>> {
    named(crate::text::split_on(path, '/'))
}

/// The path starts with `.` as a part.
pub open spec fn starts_here(path: Seq<char>) -> bool {
    crate::text::split_on(path, '/')[0] == "."@
}

/// Both paths name the same place in the same way: repeated separators, and `.` inside a path,
/// make no difference.
pub open spec fn same_place(a: Seq<char>, b: Seq<char>) -> bool {
    is_absolute(a) == is_absolute(b) && starts_here(a) == starts_here(b) && parts(a) == parts(b)
}

/// `path` continued by `next`; an absolute `next` stands for itself.
pub open spec fn joined(path: Seq<char>, next: Seq<char>) -> Seq<char> {
    if is_absolute(next) || path.len() == 0 {
        next
    } else if path.last() == '/' {
        path + next
    } else {
        path + "/"@ + next
    }
}

/// The last part of a path, unless it leads upwards or there is none.
pub open spec fn name_of(path: Seq<char>) -> Option<Seq<char>> {
    if parts(path).len() == 0 || parts(path).last() == ".."@ {
        None
    } else {
        Some(parts(path).last())
    }
}

/// What follows the last `.` of a file name; a name that only starts with one has no extension.
pub open spec fn extension_of(path: Seq<char>) -> Seq<char> {
    match name_of(path) {
        Some(name) => match crate::text::rfind(name, "."@) {
            Some(k) => if k > 0 {
                name.skip(k + 1)
            } else {
                Seq::empty()
            },
            None => Seq::empty(),
        },
        None => Seq::empty(),
    }
}

/// The named parts of a path.
pub fn path_parts(path: &str) -> (list: Vec<String>)
    ensures
        crate::text::texts(list@) == parts(path@),
{
    let texts = split(path, '/');
    let ghost all = crate::text::texts(texts@);
    let mut list: Vec<String> = Vec::new();
    let mut i: usize = 0;
    assert(all.take(0).len() == 0);
    assert(crate::text::texts(list@) =~= named(all.take(0)));
    while i < texts.len()
        invariant
            i <= texts@.len(),
            all == crate::text::texts(texts@),
            crate::text::texts(list@) == named(all.take(i as int)),
        decreases texts@.len() - i,
    {
        proof {
            assert(all.take(i + 1).drop_last() =~= all.take(i as int));
            assert(all.take(i + 1).last() == texts@[i as int]@);
        }
        if !texts[i].as_str().is_empty() && !same_text(texts[i].as_str(), ".") {
            let ghost before = crate::text::texts(list@);
            list.push(texts[i].clone());
            assert(crate::text::texts(list@) =~= before.push(texts@[i as int]@));
        }
        i += 1;
    }
    assert(all.take(i as int) =~= all);
    list
}

/// Whether both lists hold the same texts in the same order.
fn same_list(a: &Vec<String>, b: &Vec<String>) -> (same: bool)
    ensures
        same == (crate::text::texts(a@) == crate::text::texts(b@)),
{
    let ghost x = crate::text::texts(a@);
    let ghost y = crate::text::texts(b@);
    if a.len() != b.len() {
        assert(x.len() != y.len());
        return false;
    }
    let mut i: usize = 0;
    while i < a.len()
        invariant
            i <= a@.len(),
            a@.len() == b@.len(),
            x == crate::text::texts(a@),
            y == crate::text::texts(b@),
            forall|j: int| 0 <= j < i ==> x[j] == y[j],
        decreases a@.len() - i,
    {
        if !same_text(a[i].as_str(), b[i].as_str()) {
            assert(x[i as int] != y[i as int]);
            return false;
        }
        i += 1;
    }
    assert(x =~= y);
    true
}

fn begins_here(path: &str) -> (b: bool)
    ensures
        b == starts_here(path@),
{
    let texts = split(path, '/');
    proof {
        crate::text::lemma_split_on_len(path@, '/');
        assert(crate::text::texts(texts@)[0] == texts@[0]@);
    }
    same_text(texts[0].as_str(), ".")
}

/// Whether the path starts at the root.
pub fn at_root(path: &str) -> (b: bool)
    ensures
        b == is_absolute(path@),
{
    let b = has_start(path, "/");
    proof {
        reveal_strlit("/");
        if path@.len() > 0 {
            assert(path@.take(1)[0] == path@[0]);
            assert(path@[0] == '/' ==> path@.take(1) =~= "/"@);
        }
    }
    b
}

/// Whether both paths name the same place in the same way.
pub fn same_path(a: &str, b: &str) -> (same: bool)
    ensures
        same == same_place(a@, b@),
{
    let x = path_parts(a);
    let y = path_parts(b);
    at_root(a) == at_root(b) && begins_here(a) == begins_here(b) && same_list(&x, &y)
}

/// `path` continued by `next`.
pub fn join(path: &str, next: &str) -> (result: String)
    ensures
        result@ == joined(path@, next@),
{
    if at_root(next) || path.is_empty() {
        return next.to_owned();
    }
    let chars = chars_of(path);
    let mut result = path.to_owned();
    if chars[chars.len() - 1] != '/' {
        result.append("/");
    }
    result.append(next);
    result
}

/// The last part of a path.
pub fn file_name(path: &str) -> (name: Option<String>)
    ensures
        crate::events::optional_text(name) == name_of(path@),
{
    let list = path_parts(path);
    let ghost all = crate::text::texts(list@);
    if list.len() == 0 {
        assert(all.len() == 0);
        return None;
    }
    assert(all.last() == list@[list@.len() - 1]@);
    let last = list[list.len() - 1].clone();
    if same_text(last.as_str(), "..") {
        None
    } else {
        Some(last)
    }
}

/// What follows the last `.` of the file name.
pub fn file_extension(path: &str) -> (extension: String)
    ensures
        extension@ == extension_of(path@),
{
    match file_name(path) {
        Some(name) => {
            let chars = chars_of(name.as_str());
            let dot = chars_of(".");
            match search_last(&chars, &dot) {
                Some(k) => {
                    proof {
                        crate::text::lemma_rfind_from(chars@, dot@, chars@.len() - dot@.len());
                        reveal_strlit(".");
                    }
                    let end: usize = chars.len();
                    assert(k + 1 <= end);
                    if k > 0 {
                        let extension = text_of(&chars, k + 1, end);
                        assert(extension@ =~= name@.skip(k + 1));
                        extension
                    } else {
                        String::new()
                    }
                },
                None => String::new(),
            }
        },
        None => String::new(),
    }
}

// ── Laws ─────────────────────────────────────────────────────────────────────

proof fn lemma_named(texts: Seq<Seq<char>>)
    ensures
        crate::selection::keeps_just(
            named(texts),
            texts,
            |text: Seq<char>| text.len() > 0 && text != "."@,
        ),
    decreases texts.len(),
{
    let names = |text: Seq<char>| text.len() > 0 && text != "."@;
    if texts.len() == 0 {
        crate::selection::lemma_nothing(texts, names);
        assert(named(texts) =~= Seq::empty());
    } else {
        lemma_named(texts.drop_last());
        crate::selection::lemma_one_more(
            named(texts.drop_last()),
            texts.drop_last(),
            names,
            texts.last(),
        );
        assert(texts.drop_last().push(texts.last()) =~= texts);
    }
}

/// The parts of a path are what stands between its separators, but for nothing and `.`.
pub proof fn law_parts_stand_between_separators(path: Seq<char>)
    ensures
        crate::selection::keeps_just(
            parts(path),
            crate::text::split_on(path, '/'),
            |text: Seq<char>| text.len() > 0 && text != "."@,
        ),
{
    lemma_named(crate::text::split_on(path, '/'));
}

pub proof fn lemma_named_sum(a: Seq<Seq<char>>, b: Seq<Seq<char>>)
    ensures
        named(a + b) == named(a) + named(b),
    decreases b.len(),
{
    if b.len() == 0 {
        assert(a + b =~= a);
        assert(named(a) + named(b) =~= named(a));
    } else {
        lemma_named_sum(a, b.drop_last());
        assert((a + b).drop_last() =~= a + b.drop_last());
        assert((a + b).last() == b.last());
        assert(named(a + b) =~= named(a) + named(b));
    }
}

proof fn lemma_parts_sum(a: Seq<char>, b: Seq<char>)
    ensures
        parts(a + seq!['/'] + b) == parts(a) + parts(b),
{
    crate::text::lemma_split_sum(a, b, '/');
    lemma_named_sum(crate::text::split_on(a, '/'), crate::text::split_on(b, '/'));
}

/// A path that is continued has the parts of both, and starts where it did; an absolute
/// continuation stands for itself.
pub proof fn law_joined_paths_have_the_parts_of_both(path: Seq<char>, next: Seq<char>)
    ensures
        is_absolute(next) ==> joined(path, next) == next,
        !is_absolute(next) ==> parts(joined(path, next)) == parts(path) + parts(next),
        !is_absolute(next) && path.len() > 0 ==> is_absolute(joined(path, next)) == is_absolute(
            path,
        ),
{
    reveal_strlit("/");
    if !is_absolute(next) {
        if path.len() == 0 {
            assert(path =~= Seq::empty());
            assert(crate::text::split_on(path, '/') =~= seq![Seq::empty()]);
            let none = crate::text::split_on(path, '/');
            assert(none.last().len() == 0);
            assert(named(none.drop_last()) =~= Seq::empty());
            assert(parts(path) =~= Seq::empty());
            assert(parts(path) + parts(next) =~= parts(next));
        } else if path.last() == '/' {
            let front = path.drop_last();
            assert(path =~= front + seq!['/'] + Seq::empty());
            assert(path + next =~= front + seq!['/'] + next);
            lemma_parts_sum(front, next);
            lemma_parts_sum(front, Seq::empty());
            let empty = Seq::<char>::empty();
            assert(crate::text::split_on(empty, '/') =~= seq![empty]);
            let none = crate::text::split_on(empty, '/');
            assert(none.last().len() == 0);
            assert(named(none.drop_last()) =~= Seq::empty());
            assert(parts(empty) =~= Seq::empty());
            assert(parts(front) + parts(empty) =~= parts(front));
        } else {
            assert(path + "/"@ + next =~= path + seq!['/'] + next);
            lemma_parts_sum(path, next);
            assert(joined(path, next)[0] == path[0]);
        }
    }
}

/// The text can be the name of a file: a single part that does not lead upwards.
pub open spec fn is_file_name(name: Seq<char>) -> bool {
    name.len() > 0 && !name.contains('/') && name != "."@ && name != ".."@
}

proof fn lemma_one_part(name: Seq<char>)
    requires
        !name.contains('/'),
        name.len() > 0,
        name != "."@,
    ensures
        parts(name) == seq![name],
{
    crate::text::lemma_split_whole(name, '/');
    let one = seq![name];
    assert(one.last() == name);
    assert(named(one.drop_last()) =~= Seq::empty());
    assert(named(one) =~= one);
}

/// A file in a folder has its own name, and no other part.
pub proof fn law_files_keep_their_names(folder: Seq<char>, name: Seq<char>)
    requires
        is_file_name(name),
    ensures
        name_of(joined(folder, name)) == Some(name),
        parts(joined(folder, name)) == parts(folder).push(name),
{
    lemma_one_part(name);
    assert(!is_absolute(name)) by {
        if is_absolute(name) {
            assert(name[0] == '/');
            assert(name.contains('/'));
        }
    }
    law_joined_paths_have_the_parts_of_both(folder, name);
    assert(parts(folder) + seq![name] =~= parts(folder).push(name));
}

/// The extension of a file is what follows the last dot of its name, if something stands before
/// that.
pub proof fn law_extensions_follow_the_last_dot(folder: Seq<char>, stem: Seq<char>, end: Seq<char>)
    requires
        stem.len() > 0,
        !end.contains('.'),
        is_file_name(stem + seq!['.'] + end),
    ensures
        extension_of(joined(folder, stem + seq!['.'] + end)) == end,
{
    let name = stem + seq!['.'] + end;
    law_files_keep_their_names(folder, name);
    reveal_strlit(".");
    let at = stem.len() as int;
    assert(name.subrange(at, at + 1) =~= "."@);
    assert forall|j: int| at < j implies !crate::text::occurs_at(name, "."@, j) by {
        if crate::text::occurs_at(name, "."@, j) {
            assert(name.subrange(j, j + 1)[0] == '.');
            assert(end[j - at - 1] == '.');
        }
    }
    crate::text::lemma_rfind_is(name, "."@, at);
    assert(name.skip(at + 1) =~= end);
}

/// Repeated separators, and `.` between two separators, name the same place.
pub proof fn law_same_place_is_spelled_in_several_ways(a: Seq<char>, b: Seq<char>)
    requires
        a.len() > 0,
    ensures
        same_place(a + seq!['/'] + b, a + seq!['/', '/'] + b),
        same_place(a + seq!['/'] + b, a + seq!['/', '.', '/'] + b),
        same_place(a, a + seq!['/']),
{
    let empty = Seq::<char>::empty();
    let dot = seq!['.'];
    reveal_strlit(".");
    assert(dot =~= "."@);
    assert(a + seq!['/', '/'] + b =~= (a + seq!['/'] + empty) + seq!['/'] + b);
    assert(a + seq!['/', '.', '/'] + b =~= (a + seq!['/'] + dot) + seq!['/'] + b);
    assert(a + seq!['/'] =~= a + seq!['/'] + empty);
    lemma_parts_sum(a, b);
    lemma_parts_sum(a, empty);
    lemma_parts_sum(a, dot);
    lemma_parts_sum(a + seq!['/'] + empty, b);
    lemma_parts_sum(a + seq!['/'] + dot, b);
    assert(!empty.contains('/') && !dot.contains('/'));
    crate::text::lemma_split_whole(empty, '/');
    crate::text::lemma_split_whole(dot, '/');
    assert(named(seq![empty]) =~= Seq::empty()) by {
        assert(seq![empty].last() == empty);
        assert(named(seq![empty].drop_last()) =~= Seq::empty());
    }
    assert(named(seq![dot]) =~= Seq::empty()) by {
        assert(seq![dot].last() == dot);
        assert(named(seq![dot].drop_last()) =~= Seq::empty());
    }
    assert(parts(a) + parts(empty) =~= parts(a));
    assert(parts(a) + parts(dot) =~= parts(a));
    crate::text::lemma_split_sum(a, b, '/');
    crate::text::lemma_split_sum(a, empty, '/');
    crate::text::lemma_split_sum(a, dot, '/');
    crate::text::lemma_split_sum(a + seq!['/'] + empty, b, '/');
    crate::text::lemma_split_sum(a + seq!['/'] + dot, b, '/');
    crate::text::lemma_split_on_len(a, '/');
}

/// Paths of one place have the same parts, the same name and the same ending, and both of them or
/// none of them are absolute.
pub proof fn law_same_place_means_same_parts(a: Seq<char>, b: Seq<char>)
    requires
        same_place(a, b),
    ensures
        parts(a) == parts(b),
        name_of(a) == name_of(b),
        extension_of(a) == extension_of(b),
        is_absolute(a) == is_absolute(b),
        same_place(b, a),
{
}

/// Any further part leads elsewhere, and so does a `/` in front of a path.
pub proof fn law_other_places_are_told_apart(a: Seq<char>, b: Seq<char>, c: Seq<char>)
    requires
        a.len() > 0,
    ensures
        parts(b).len() > 0 ==> !same_place(a, a + seq!['/'] + b),
        parts(b) != parts(c) ==> !same_place(a + seq!['/'] + b, a + seq!['/'] + c),
        a[0] != '/' ==> !same_place(a, seq!['/'] + a),
        same_place(a, b) && same_place(b, c) ==> same_place(a, c),
        same_place(a, a),
{
    lemma_parts_sum(a, b);
    lemma_parts_sum(a, c);
    if parts(a) + parts(b) == parts(a) + parts(c) {
        assert(parts(b) =~= (parts(a) + parts(b)).skip(parts(a).len() as int));
        assert(parts(c) =~= (parts(a) + parts(c)).skip(parts(a).len() as int));
    }
}

/// A path from `.` is told apart from the same path without it.
pub proof fn law_here_is_told_apart(b: Seq<char>)
    requires
        b.len() > 0,
        b[0] != '.',
        b[0] != '/',
    ensures
        !same_place(seq!['.', '/'] + b, b),
        parts(seq!['.', '/'] + b) == parts(b),
{
    let dot = seq!['.'];
    reveal_strlit(".");
    assert(dot =~= "."@);
    assert(!dot.contains('/'));
    assert(seq!['.', '/'] + b =~= dot + seq!['/'] + b);
    crate::text::lemma_split_sum(dot, b, '/');
    crate::text::lemma_split_whole(dot, '/');
    lemma_parts_sum(dot, b);
    assert(named(seq![dot]) =~= Seq::empty()) by {
        assert(seq![dot].last() == dot);
        assert(named(seq![dot].drop_last()) =~= Seq::empty());
    }
    assert(parts(dot) + parts(b) =~= parts(b));
    crate::text::lemma_split_on_len(b, '/');
    lemma_first_char(b);
}

/// The first piece of a text starts as the text does, unless it is empty.
proof fn lemma_first_char(b: Seq<char>)
    requires
        b.len() > 0,
        b[0] != '/',
    ensures
        crate::text::split_on(b, '/').len() > 0,
        crate::text::split_on(b, '/')[0].len() > 0,
        crate::text::split_on(b, '/')[0][0] == b[0],
    decreases b.len(),
{
    let rest = b.drop_last();
    crate::text::lemma_split_on_len(rest, '/');
    crate::text::lemma_split_on_len(b, '/');
    if b.len() == 1 {
        assert(!b.contains('/'));
        crate::text::lemma_split_whole(b, '/');
    } else {
        lemma_first_char(rest);
    }
}

} // verus!
