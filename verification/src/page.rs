//! A single wiki page: a file under the wiki's root directory.

use vstd::prelude::*;
use vstd::string::*;
use crate::text::{
    append_str, ascii_upper, char_to_uppercase, chars_of, contains_char, has_prefix, has_suffix,
    is_ascii_char, join, join_with, lemma_join_split, lemma_split_nonempty,
    lemma_split_pieces_free_of, lemma_split_pieces_free_of_separator, lemma_trim_start_is_suffix,
    lemma_trim_end_is_prefix, lemma_trim_end_no_trailing, lemma_trim_start_no_leading, push_char,
    split_char, split_on, string_of_range, trim_end, trim_end_at, trim_start, trim_start_at,
    uppercase_of, views,
};

verus! {

/// Single Wiki Page
pub struct Page {
    path: String,
    root: String,
}

/// What a page is: the path of its file and the root of the wiki.
pub struct PageView {
    pub path: Seq<char>,
    pub root: Seq<char>,
}

impl View for Page {
    type V = PageView;

    closed spec fn view(&self) -> PageView {
        PageView { path: self.path@, root: self.root@ }
    }
}

/// The extension of a wiki page's file.
pub open spec fn md_ext() -> Seq<char> {
    seq!['.', 'm', 'd']
}

/// The path with the root, then any leading dots, then any leading slashes
/// removed.
pub open spec fn without_root(path: Seq<char>, root: Seq<char>) -> Seq<char> {
    trim_start(trim_start(trim_start(path, root), seq!['.']), seq!['/'])
}

/// The name of a page: its path without the root and without the `.md`
/// extension.
pub open spec fn page_name(path: Seq<char>, root: Seq<char>) -> Seq<char> {
    trim_end(without_root(path, root), md_ext())
}

/// The first character upper-cased (`?` for an empty word), then the rest.
pub open spec fn capitalized(s: Seq<char>) -> Seq<char> {
    if s.len() == 0 {
        uppercase_of('?')
    } else {
        uppercase_of(s[0]) + s.skip(1)
    }
}

/// One `_`-separated word of a title: where it holds a `/`, only the part
/// after the last `/` is capitalized.
pub open spec fn title_word(part: Seq<char>) -> Seq<char> {
    if part.contains('/') {
        let pieces = split_on(part, '/');
        join(pieces.drop_last(), seq!['/']) + seq!['/'] + capitalized(pieces.last())
    } else {
        capitalized(part)
    }
}

/// The title made of a page name: `_` separates words, each capitalized,
/// joined by spaces.
pub open spec fn title_of(name: Seq<char>) -> Seq<char> {
    join(split_on(name, '_').map_values(|p: Seq<char>| title_word(p)), seq![' '])
}

/// Is every character of `s` an ASCII character?
pub open spec fn is_ascii_text(s: Seq<char>) -> bool {
    forall|i: int| 0 <= i < s.len() ==> is_ascii_char(#[trigger] s[i])
}

/// `capitalized` for ASCII text: the first letter in upper case (`?` for an
/// empty word), then the rest.
pub open spec fn ascii_capitalized(s: Seq<char>) -> Seq<char> {
    if s.len() == 0 {
        seq!['?']
    } else {
        seq![ascii_upper(s[0])] + s.skip(1)
    }
}

/// `title_word` for ASCII text.
pub open spec fn ascii_title_word(part: Seq<char>) -> Seq<char> {
    if part.contains('/') {
        let pieces = split_on(part, '/');
        join(pieces.drop_last(), seq!['/']) + seq!['/'] + ascii_capitalized(pieces.last())
    } else {
        ascii_capitalized(part)
    }
}

/// `title_of` for ASCII text.
pub open spec fn ascii_title_of(name: Seq<char>) -> Seq<char> {
    join(split_on(name, '_').map_values(|p: Seq<char>| ascii_title_word(p)), seq![' '])
}

impl Page {
    pub fn new(root: &str, path: &str) -> (page: Page)
        ensures
            page@ == (PageView { path: path@, root: root@ }),
    {
        Page { root: root.to_owned(), path: path.to_owned() }
    }

    /// Where the page's name starts and ends within its path.
    fn name_bounds(&self) -> (bounds: (usize, usize))
        ensures
            bounds.0 <= bounds.1 <= self@.path.len(),
            self@.path.subrange(bounds.0 as int, self@.path.len() as int) == without_root(
                self@.path,
                self@.root,
            ),
            self@.path.subrange(bounds.0 as int, bounds.1 as int) == page_name(
                self@.path,
                self@.root,
            ),
    {
        let v = chars_of(self.path.as_str());
        let root = chars_of(self.root.as_str());
        let dot = chars_of(".");
        let slash = chars_of("/");
        proof {
            reveal_strlit(".");
            reveal_strlit("/");
        }
        assert(dot@ =~= seq!['.']);
        assert(slash@ =~= seq!['/']);
        assert(v@.skip(0) =~= v@);
        let a = trim_start_at(&v, 0, &root);
        let b = trim_start_at(&v, a, &dot);
        let c = trim_start_at(&v, b, &slash);
        assert(v@.subrange(c as int, v@.len() as int) =~= v@.skip(c as int));
        let ext = chars_of(".md");
        proof {
            reveal_strlit(".md");
        }
        assert(ext@ =~= md_ext());
        let tail: Vec<char> = slice_from(&v, c);
        let e = trim_end_at(&tail, tail.len(), &ext);
        assert(tail@.take(tail@.len() as int) =~= tail@);
        assert(v@.subrange(c as int, (c + e) as int) =~= tail@.take(e as int));
        (c, c + e)
    }

    pub fn name(&self) -> (name: &str)
        ensures
            name@ == page_name(self@.path, self@.root),
    {
        let (from, to) = self.name_bounds();
        let p = self.path.as_str();
        let n = p.substring_char(from, to);
        n
    }

    pub fn url(&self) -> (url: String)
        ensures
            url@ == seq!['/'] + page_name(self@.path, self@.root),
    {
        let mut url = String::new();
        push_char(&mut url, '/');
        append_str(&mut url, self.name());
        url
    }

    pub fn path(&self) -> (path: &str)
        ensures
            path@ == self@.path,
    {
        self.path.as_str()
    }

    pub fn path_without_root(&self) -> (rest: &str)
        ensures
            rest@ == without_root(self@.path, self@.root),
    {
        let (from, _) = self.name_bounds();
        let p = self.path.as_str();
        let n = p.substring_char(from, self.path.unicode_len());
        n
    }

    pub fn title(&self) -> (title: String)
        ensures
            title@ == title_of(page_name(self@.path, self@.root)),
            is_ascii_text(page_name(self@.path, self@.root)) ==> title@ == ascii_title_of(
                page_name(self@.path, self@.root),
            ),
    {
        let name = self.name();
        let parts = split_char(name, '_');
        let ghost spec_parts = split_on(name@, '_');
        proof {
            if is_ascii_text(name@) {
                lemma_split_pieces_ascii(name@, '_');
            }
        }
        let mut words: Vec<String> = Vec::new();
        let mut i: usize = 0;
        while i < parts.len()
            invariant
                i <= parts.len(),
                views(parts@) == spec_parts,
                views(words@) == spec_parts.take(i as int).map_values(
                    |p: Seq<char>| title_word(p),
                ),
                is_ascii_text(name@) ==> forall|k: int|
                    0 <= k < spec_parts.len() ==> is_ascii_text(#[trigger] spec_parts[k]),
                is_ascii_text(name@) ==> views(words@) == spec_parts.take(i as int).map_values(
                    |p: Seq<char>| ascii_title_word(p),
                ),
            decreases parts.len() - i,
        {
            let ghost before = views(words@);
            assert(views(parts@)[i as int] == parts@[i as int]@);
            let w = title_word_of(parts[i].as_str());
            words.push(w);
            assert(views(words@) =~= before.push(w@));
            i += 1;
            assert(spec_parts.take(i as int) =~= spec_parts.take(i - 1).push(spec_parts[i - 1]));
            assert(views(words@) =~= spec_parts.take(i as int).map_values(
                |p: Seq<char>| title_word(p),
            ));
            proof {
                if is_ascii_text(name@) {
                    assert(is_ascii_text(spec_parts[i - 1]));
                    assert(views(words@) =~= spec_parts.take(i as int).map_values(
                        |p: Seq<char>| ascii_title_word(p),
                    ));
                }
            }
        }
        assert(spec_parts.take(parts@.len() as int) =~= spec_parts);
        join_with(&words, ' ')
    }
}

/// The characters of `v` from position `from` on.
fn slice_from(v: &Vec<char>, from: usize) -> (r: Vec<char>)
    requires
        from <= v.len(),
    ensures
        r@ == v@.skip(from as int),
{
    let mut r: Vec<char> = Vec::new();
    let mut i = from;
    while i < v.len()
        invariant
            from <= i <= v.len(),
            r@ == v@.subrange(from as int, i as int),
        decreases v.len() - i,
    {
        r.push(v[i]);
        i += 1;
        assert(r@ =~= v@.subrange(from as int, i as int));
    }
    assert(r@ =~= v@.skip(from as int));
    r
}

/// One word of a title.
fn title_word_of(part: &str) -> (word: String)
    ensures
        word@ == title_word(part@),
        is_ascii_text(part@) ==> word@ == ascii_title_word(part@),
{
    let v = chars_of(part);
    if contains_char(&v, '/') {
        let mut pieces = split_char(part, '/');
        proof {
            lemma_split_nonempty(part@, '/');
            if is_ascii_text(part@) {
                lemma_split_pieces_ascii(part@, '/');
                let ps = split_on(part@, '/');
                assert(is_ascii_text(ps[ps.len() - 1]));
            }
        }
        let ghost all = views(pieces@);
        let last = pieces.pop().unwrap();
        assert(views(pieces@) =~= all.drop_last());
        let mut word = join_with(&pieces, '/');
        push_char(&mut word, '/');
        let cap = capitalize(last.as_str());
        append_str(&mut word, cap.as_str());
        word
    } else {
        capitalize(part)
    }
}

/// Capitalize the first letter of a string.
pub(crate) fn capitalize(s: &str) -> (r: String)
    ensures
        r@ == capitalized(s@),
        s@.len() > 0 && is_ascii_char(s@[0]) ==> r@ == seq![ascii_upper(s@[0])] + s@.skip(1),
        is_ascii_text(s@) ==> r@ == ascii_capitalized(s@),
{
    let v = chars_of(s);
    let first = if v.len() == 0 {
        '?'
    } else {
        v[0]
    };
    let mut r = char_to_uppercase(first);
    let from: usize = if v.len() == 0 {
        0
    } else {
        1
    };
    let rest = string_of_range(&v, from, v.len());
    append_str(&mut r, rest.as_str());
    proof {
        if v@.len() == 0 {
            assert(r@ =~= uppercase_of('?'));
        } else {
            assert(v@.subrange(1, v@.len() as int) =~= v@.skip(1));
        }
    }
    r
}


// ---------------------------------------------------------------------
// Laws
// ---------------------------------------------------------------------

/// A page's name never ends with `.md` and never begins with `/`; its URL
/// is `/` followed by the name.
pub proof fn lemma_page_name_shape(path: Seq<char>, root: Seq<char>)
    ensures
        !has_suffix(page_name(path, root), md_ext()),
        page_name(path, root).len() > 0 ==> page_name(path, root)[0] != '/',
{
    let rest = without_root(path, root);
    lemma_trim_end_no_trailing(rest, md_ext());
    lemma_trim_start_no_leading(trim_start(trim_start(path, root), seq!['.']), seq!['/']);
    lemma_trim_end_is_prefix(rest, md_ext());
    let name = page_name(path, root);
    if name.len() > 0 {
        assert(name[0] == rest[0]);
        if rest[0] == '/' {
            assert(rest.take(1) =~= seq!['/']);
            assert(has_prefix(rest, seq!['/']));
        }
    }
}

/// Where a name holds no `/`, each of its words is simply capitalized.
pub proof fn lemma_title_of_plain_name(name: Seq<char>)
    requires
        !name.contains('/'),
    ensures
        title_of(name) == join(
            split_on(name, '_').map_values(|p: Seq<char>| capitalized(p)),
            seq![' '],
        ),
{
    lemma_split_pieces_free_of(name, '_', '/');
    let parts = split_on(name, '_');
    assert(parts.map_values(|p: Seq<char>| title_word(p)) =~= parts.map_values(
        |p: Seq<char>| capitalized(p),
    ));
}


/// The pieces of a split of ASCII text are ASCII text.
pub proof fn lemma_split_pieces_ascii(s: Seq<char>, c: char)
    requires
        is_ascii_text(s),
    ensures
        forall|k: int| 0 <= k < split_on(s, c).len() ==> is_ascii_text(#[trigger] split_on(s, c)[k]),
{
    let ps = split_on(s, c);
    assert forall|k: int| 0 <= k < ps.len() implies is_ascii_text(#[trigger] ps[k]) by {
        assert forall|j: int| 0 <= j < ps[k].len() implies is_ascii_char(#[trigger] ps[k][j]) by {
            let d = ps[k][j];
            if !is_ascii_char(d) {
                assert(!s.contains(d)) by {
                    if s.contains(d) {
                        let i = choose|i: int| 0 <= i < s.len() && s[i] == d;
                        assert(is_ascii_char(s[i]));
                    }
                }
                lemma_split_pieces_free_of(s, c, d);
                assert(ps[k].contains(d));
            }
        }
    }
}

/// A word holding a `/` keeps everything up to its last `/` and capitalizes
/// what follows it.
pub proof fn lemma_title_word_after_last_slash(part: Seq<char>, i: int)
    requires
        0 <= i < part.len(),
        part[i] == '/',
        !part.skip(i + 1).contains('/'),
    ensures
        title_word(part) == part.take(i + 1) + capitalized(part.skip(i + 1)),
{
    assert(part.contains('/'));
    let ps = split_on(part, '/');
    lemma_join_split(part, '/');
    lemma_split_pieces_free_of_separator(part, '/');
    lemma_split_nonempty(part, '/');
    if ps.len() == 1 {
        assert(join(ps, seq!['/']) == ps[0]);
        assert(!ps[0].contains('/'));
        assert(false);
    }
    let a = join(ps.drop_last(), seq!['/']);
    let l = ps.last();
    assert(part == a + seq!['/'] + l);
    assert(!l.contains('/')) by {
        assert(l == ps[ps.len() - 1]);
    }
    let n = a.len() as int;
    assert(part[n] == '/');
    if i < n {
        assert(part.skip(i + 1)[n - i - 1] == '/');
    } else if i > n {
        assert(l[i - n - 1] == part[i]);
    }
    assert(part.take(i + 1) =~= a + seq!['/']);
    assert(part.skip(i + 1) =~= l);
}

/// What is left of a page's path without its root is an end of the path and
/// never begins with `/`; for a path `root/rest` (with a root that does not
/// begin with `/`, and a rest that begins with neither `.` nor `/`) it is
/// exactly `rest`.
pub proof fn lemma_without_root_shape(path: Seq<char>, root: Seq<char>, rest: Seq<char>)
    ensures
        without_root(path, root).len() <= path.len(),
        without_root(path, root) == path.skip(path.len() - without_root(path, root).len()),
        !has_prefix(without_root(path, root), seq!['/']),
        root.len() > 0 && !has_prefix(root, seq!['/']) && path == root + seq!['/'] + rest
            && !has_prefix(rest, seq!['.']) && !has_prefix(rest, seq!['/']) ==> without_root(
            path,
            root,
        ) == rest,
{
    let a = trim_start(path, root);
    let b = trim_start(a, seq!['.']);
    let c = trim_start(b, seq!['/']);
    lemma_trim_start_is_suffix(path, root);
    lemma_trim_start_is_suffix(a, seq!['.']);
    lemma_trim_start_is_suffix(b, seq!['/']);
    lemma_trim_start_no_leading(b, seq!['/']);
    assert(path.skip(path.len() - a.len()).skip(a.len() - b.len()) =~= path.skip(path.len() - b.len()));
    assert(path.skip(path.len() - b.len()).skip(b.len() - c.len()) =~= path.skip(path.len() - c.len()));
    if root.len() > 0 && !has_prefix(root, seq!['/']) && path == root + seq!['/'] + rest
        && !has_prefix(rest, seq!['.']) && !has_prefix(rest, seq!['/']) {
        let after = seq!['/'] + rest;
        assert(path.take(root.len() as int) =~= root);
        assert(path.skip(root.len() as int) =~= after);
        assert(!has_prefix(after, root)) by {
            if has_prefix(after, root) {
                assert(after.take(root.len() as int)[0] == '/');
                assert(root.take(1) =~= seq!['/']);
            }
        }
        assert(trim_start(after, root) == after);
        assert(has_prefix(path, root));
        assert(a == trim_start(path.skip(root.len() as int), root));
        assert(a == after);
        assert(!has_prefix(after, seq!['.'])) by {
            if has_prefix(after, seq!['.']) {
                assert(after.take(1)[0] == '/');
            }
        }
        assert(b == after);
        assert(after.take(1) =~= seq!['/']);
        assert(after.skip(1) =~= rest);
        assert(trim_start(rest, seq!['/']) == rest);
        assert(c == trim_start(after.skip(1), seq!['/']));
        assert(c == rest);
    }
}

} // verus!
