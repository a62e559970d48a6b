//! Text operations over character sequences, each with the meaning that
//! the corresponding `str` method of the standard library has.

use vstd::prelude::*;

verus! {

// ---------------------------------------------------------------------
// Specifications
// ---------------------------------------------------------------------

/// `s` with every leading copy of `p` removed (`str::trim_start_matches`).
/// An empty pattern leaves `s` unchanged.
pub open spec fn trim_start(s: Seq<char>, p: Seq<char>) -> Seq<char>
    decreases s.len(),
{
    if p.len() > 0 && p.len() <= s.len() && s.take(p.len() as int) == p {
        trim_start(s.skip(p.len() as int), p)
    } else {
        s
    }
}

/// `s` with every trailing copy of `p` removed (`str::trim_end_matches`).
/// An empty pattern leaves `s` unchanged.
pub open spec fn trim_end(s: Seq<char>, p: Seq<char>) -> Seq<char>
    decreases s.len(),
{
    if p.len() > 0 && p.len() <= s.len() && s.skip(s.len() - p.len()) == p {
        trim_end(s.take(s.len() - p.len()), p)
    } else {
        s
    }
}

/// Does `s` begin with `p`?
pub open spec fn has_prefix(s: Seq<char>, p: Seq<char>) -> bool {
    p.len() <= s.len() && s.take(p.len() as int) == p
}

/// Does `v` hold two dots in a row?
fn holds_double_dot(v: &Vec<char>) -> (b: bool)
    ensures
        b == has_double_dot(v@),
{
    let mut i: usize = 0;
    while i < v.len() && i + 1 < v.len()
        invariant
            i <= v.len(),
            forall|k: int| 0 <= k < i && k + 1 < v@.len() ==> !(v@[k] == '.' && #[trigger] v@[k + 1] == '.'),
        decreases v.len() - i,
    {
        if v[i] == '.' && v[i + 1] == '.' {
            return true;
        }
        i += 1;
    }
    assert(!has_double_dot(v@)) by {
        if has_double_dot(v@) {
            let k = choose|k: int| 0 <= k < v@.len() - 1 && v@[k] == '.' && #[trigger] v@[k + 1] == '.';
            assert(!(v@[k] == '.' && v@[k + 1] == '.'));
        }
    }
    false
}

/// `s` with every run of dots collapsed to a single dot, replacing `..` by
/// `.` until no two dots stand together.
pub fn collapse_dot_runs(s: &str) -> (r: String)
    ensures
        r@ == collapse_dots(s@),
{
    proof {
        reveal_strlit("..");
        reveal_strlit(".");
    }
    assert(".."@ =~= seq!['.', '.']);
    assert("."@ =~= seq!['.']);
    let mut cur = String::new();
    append_str(&mut cur, s);
    let mut v = chars_of(cur.as_str());
    while holds_double_dot(&v)
        invariant
            v@ == cur@,
            collapse_dots(cur@) == collapse_dots(s@),
        decreases cur@.len(),
    {
        proof {
            reveal_strlit("..");
            reveal_strlit(".");
            lemma_collapse_step_shrinks(cur@);
        }
        assert(".."@ =~= seq!['.', '.']);
        assert("."@ =~= seq!['.']);
        let ghost before = cur@;
        cur = replace(cur.as_str(), "..", ".");
        assert(collapse_dots(before) == collapse_dots(cur@));
        v = chars_of(cur.as_str());
    }
    cur
}

/// Does `s` end with `p`?
pub open spec fn has_suffix(s: Seq<char>, p: Seq<char>) -> bool {
    p.len() <= s.len() && s.skip(s.len() - p.len()) == p
}

/// Every non-overlapping occurrence of `from` in `s`, found from left to
/// right, replaced by `to` (`str::replace` with a non-empty pattern).
pub open spec fn replace_all(s: Seq<char>, from: Seq<char>, to: Seq<char>) -> Seq<char>
    decreases s.len(),
{
    if from.len() == 0 || s.len() == 0 {
        s
    } else if has_prefix(s, from) {
        to + replace_all(s.skip(from.len() as int), from, to)
    } else {
        seq![s[0]] + replace_all(s.drop_first(), from, to)
    }
}

/// The pieces of `s` between occurrences of `c` (`str::split` on a char):
/// always at least one piece, possibly empty.
pub open spec fn split_on(s: Seq<char>, c: char) -> Seq<Seq<char>>
    decreases s.len(),
{
    if s.len() == 0 {
        seq![Seq::<char>::empty()]
    } else {
        let r = split_on(s.drop_last(), c);
        if s.last() == c {
            r.push(Seq::<char>::empty())
        } else {
            r.update(r.len() - 1, r.last().push(s.last()))
        }
    }
}

/// The pieces concatenated with `sep` between neighbours (`[T]::join`).
pub open spec fn join(parts: Seq<Seq<char>>, sep: Seq<char>) -> Seq<char>
    decreases parts.len(),
{
    if parts.len() == 0 {
        Seq::<char>::empty()
    } else if parts.len() == 1 {
        parts[0]
    } else {
        join(parts.drop_last(), sep) + sep + parts.last()
    }
}

/// The pieces of `s` between the non-overlapping occurrences of `p`, found
/// from left to right (`str::split` on a non-empty string pattern).
pub open spec fn split_str(s: Seq<char>, p: Seq<char>) -> Seq<Seq<char>>
    decreases s.len(),
{
    if p.len() == 0 || s.len() == 0 {
        seq![s]
    } else if has_prefix(s, p) {
        seq![Seq::<char>::empty()] + split_str(s.skip(p.len() as int), p)
    } else {
        let r = split_str(s.drop_first(), p);
        r.update(0, seq![s[0]] + r[0])
    }
}

/// The text before the first `c` (all of `s` if there is none).
pub open spec fn before_first(s: Seq<char>, c: char) -> Seq<char> {
    split_on(s, c)[0]
}

/// The text after the first `c`, if there is one (`str::splitn(2, c)`).
pub open spec fn after_first(s: Seq<char>, c: char) -> Option<Seq<char>> {
    if s.contains(c) {
        Some(s.skip(before_first(s, c).len() + 1 as int))
    } else {
        None
    }
}

/// Does `s` hold two dots in a row?
pub open spec fn has_double_dot(s: Seq<char>) -> bool {
    exists|i: int| 0 <= i < s.len() - 1 && s[i] == '.' && #[trigger] s[i + 1] == '.'
}

/// `s` with every run of dots collapsed, one `..` to `.` at a time, until
/// no two dots stand together.
pub open spec fn collapse_dots(s: Seq<char>) -> Seq<char>
    decreases s.len(),
{
    if has_double_dot(s) {
        proof {
            lemma_collapse_step_shrinks(s);
        }
        collapse_dots(replace_all(s, seq!['.', '.'], seq!['.']))
    } else {
        s
    }
}

/// The views of a vector of strings.
pub open spec fn views(v: Seq<String>) -> Seq<Seq<char>> {
    v.map_values(|x: String| x@)
}

/// Is `c` an ASCII character?
pub open spec fn is_ascii_char(c: char) -> bool {
    (c as u32) < 128
}

/// `c` with an ASCII upper-case letter turned into lower case.
pub open spec fn ascii_lower(c: char) -> char {
    if 'A' <= c && c <= 'Z' {
        ((c as u32) + 32) as char
    } else {
        c
    }
}

/// `c` with an ASCII lower-case letter turned into upper case.
pub open spec fn ascii_upper(c: char) -> char {
    if 'a' <= c && c <= 'z' {
        ((c as u32) - 32) as char
    } else {
        c
    }
}

/// What `char::to_uppercase` yields for `c`.
pub uninterp spec fn uppercase_of(c: char) -> Seq<char>;

/// What `str::to_lowercase` returns for `s`.
pub uninterp spec fn lowercase_of(s: Seq<char>) -> Seq<char>;

// ---------------------------------------------------------------------
// Lemmas
// ---------------------------------------------------------------------

/// Splitting always yields at least one piece.
pub proof fn lemma_split_nonempty(s: Seq<char>, c: char)
    ensures
        split_on(s, c).len() >= 1,
    decreases s.len(),
{
    if s.len() > 0 {
        lemma_split_nonempty(s.drop_last(), c);
    }
}

/// Splitting a text with no separator yields the text itself.
pub proof fn lemma_split_without_separator(s: Seq<char>, c: char)
    requires
        !s.contains(c),
    ensures
        split_on(s, c) == seq![s],
    decreases s.len(),
{
    if s.len() > 0 {
        let t = s.drop_last();
        assert(!t.contains(c)) by {
            if t.contains(c) {
                let i = choose|i: int| 0 <= i < t.len() && t[i] == c;
                assert(s[i] == c);
            }
        }
        lemma_split_without_separator(t, c);
        assert(s.last() != c) by {
            assert(s[s.len() - 1] == s.last());
        }
        assert(t.push(s.last()) =~= s);
        assert(split_on(s, c) =~= seq![s]);
    } else {
        assert(s =~= Seq::<char>::empty());
    }
}

/// No piece of a split holds the separator.
pub proof fn lemma_split_pieces_free_of_separator(s: Seq<char>, c: char)
    ensures
        forall|k: int| 0 <= k < split_on(s, c).len() ==> !(#[trigger] split_on(s, c)[k]).contains(c),
    decreases s.len(),
{
    if s.len() > 0 {
        let t = s.drop_last();
        lemma_split_pieces_free_of_separator(t, c);
        lemma_split_nonempty(t, c);
        let r = split_on(t, c);
        if s.last() == c {
            assert forall|k: int| 0 <= k < split_on(s, c).len() implies !(#[trigger] split_on(
                s,
                c,
            )[k]).contains(c) by {
                if k < r.len() {
                    assert(split_on(s, c)[k] == r[k]);
                } else {
                    assert(split_on(s, c)[k] =~= Seq::<char>::empty());
                }
            }
        } else {
            assert forall|k: int| 0 <= k < split_on(s, c).len() implies !(#[trigger] split_on(
                s,
                c,
            )[k]).contains(c) by {
                if k < r.len() - 1 {
                    assert(split_on(s, c)[k] == r[k]);
                } else {
                    let piece = r.last().push(s.last());
                    assert(split_on(s, c)[k] == piece);
                    assert(!r[r.len() - 1].contains(c));
                    if piece.contains(c) {
                        let i = choose|i: int| 0 <= i < piece.len() && piece[i] == c;
                        if i < piece.len() - 1 {
                            assert(r.last()[i] == c);
                        }
                    }
                }
            }
        }
    }
}

/// No piece of a split holds a character that the text does not hold.
pub proof fn lemma_split_pieces_free_of(s: Seq<char>, c: char, d: char)
    requires
        !s.contains(d),
    ensures
        forall|k: int| 0 <= k < split_on(s, c).len() ==> !(#[trigger] split_on(s, c)[k]).contains(d),
    decreases s.len(),
{
    if s.len() > 0 {
        let t = s.drop_last();
        assert(!t.contains(d)) by {
            if t.contains(d) {
                let i = choose|i: int| 0 <= i < t.len() && t[i] == d;
                assert(s[i] == d);
            }
        }
        assert(s.last() != d) by {
            assert(s[s.len() - 1] == s.last());
        }
        lemma_split_pieces_free_of(t, c, d);
        lemma_split_nonempty(t, c);
        let r = split_on(t, c);
        assert forall|k: int| 0 <= k < split_on(s, c).len() implies !(#[trigger] split_on(s, c)[
            k]).contains(d) by {
            if s.last() == c {
                if k < r.len() {
                    assert(split_on(s, c)[k] == r[k]);
                } else {
                    assert(split_on(s, c)[k] =~= Seq::<char>::empty());
                }
            } else if k < r.len() - 1 {
                assert(split_on(s, c)[k] == r[k]);
            } else {
                let piece = r.last().push(s.last());
                assert(split_on(s, c)[k] == piece);
                assert(!r[r.len() - 1].contains(d));
                if piece.contains(d) {
                    let i = choose|i: int| 0 <= i < piece.len() && piece[i] == d;
                    if i < piece.len() - 1 {
                        assert(r.last()[i] == d);
                    }
                }
            }
        }
    }
}

/// Appending a character to the last piece appends it to the joined text.
pub proof fn lemma_join_push_last(parts: Seq<Seq<char>>, sep: Seq<char>, x: char)
    requires
        parts.len() >= 1,
    ensures
        join(parts.update(parts.len() - 1, parts.last().push(x)), sep) == join(parts, sep).push(x),
{
    let q = parts.update(parts.len() - 1, parts.last().push(x));
    if parts.len() == 1 {
        assert(q[0] == parts[0].push(x));
    } else {
        assert(q.drop_last() =~= parts.drop_last());
        assert(q.last() == parts.last().push(x));
        assert(join(q, sep) =~= join(parts, sep).push(x));
    }
}

/// Joining the pieces of a split with the separator gives back the text.
pub proof fn lemma_join_split(s: Seq<char>, c: char)
    ensures
        join(split_on(s, c), seq![c]) == s,
    decreases s.len(),
{
    if s.len() > 0 {
        let t = s.drop_last();
        lemma_join_split(t, c);
        lemma_split_nonempty(t, c);
        let r = split_on(t, c);
        if s.last() == c {
            let q = r.push(Seq::<char>::empty());
            assert(q.drop_last() =~= r);
            assert(join(q, seq![c]) =~= join(r, seq![c]) + seq![c] + Seq::<char>::empty());
            assert(s =~= t.push(c));
        } else {
            lemma_join_push_last(r, seq![c], s.last());
            assert(s =~= t.push(s.last()));
        }
    } else {
        assert(s =~= Seq::<char>::empty());
    }
}


/// Splitting on a string pattern always yields at least one piece.
pub proof fn lemma_split_str_nonempty(s: Seq<char>, p: Seq<char>)
    ensures
        split_str(s, p).len() >= 1,
    decreases s.len(),
{
    if p.len() > 0 && s.len() > 0 {
        if has_prefix(s, p) {
            lemma_split_str_nonempty(s.skip(p.len() as int), p);
        } else {
            lemma_split_str_nonempty(s.drop_first(), p);
        }
    }
}

/// The first piece of a split on `c` is free of `c`, and where `c` occurs it
/// stands right after that piece.
pub proof fn lemma_first_piece(s: Seq<char>, c: char)
    ensures
        split_on(s, c).len() >= 1,
        before_first(s, c).len() <= s.len(),
        before_first(s, c) == s.take(before_first(s, c).len() as int),
        !before_first(s, c).contains(c),
        s.contains(c) ==> before_first(s, c).len() < s.len() && s[before_first(s, c).len() as int]
            == c,
        !s.contains(c) ==> before_first(s, c) == s,
    decreases s.len(),
{
    lemma_split_nonempty(s, c);
    lemma_split_pieces_free_of_separator(s, c);
    if s.len() == 0 {
        assert(before_first(s, c) =~= s.take(0));
    } else {
        let t = s.drop_last();
        lemma_first_piece(t, c);
        lemma_split_nonempty(t, c);
        let r = split_on(t, c);
        let f = before_first(t, c);
        if s.last() == c {
            assert(split_on(s, c)[0] == r[0]);
            assert(s.take(f.len() as int) =~= t.take(f.len() as int));
            if !t.contains(c) {
                assert(s[t.len() as int] == c);
            } else {
                assert(s[f.len() as int] == t[f.len() as int]);
            }
            assert(s.contains(c)) by {
                assert(s[s.len() - 1] == c);
            }
        } else {
            if r.len() == 1 {
                assert(split_on(s, c)[0] == f.push(s.last()));
                assert(!t.contains(c)) by {
                    lemma_join_split(t, c);
                    lemma_split_pieces_free_of_separator(t, c);
                    assert(join(r, seq![c]) == r[0]);
                }
                assert(f =~= t);
                assert(f.push(s.last()) =~= s);
                assert(!s.contains(c)) by {
                    if s.contains(c) {
                        let i = choose|i: int| 0 <= i < s.len() && s[i] == c;
                        if i < t.len() {
                            assert(t[i] == c);
                        }
                    }
                }
                assert(s.take(s.len() as int) =~= s);
            } else {
                assert(split_on(s, c)[0] == r[0]);
                assert(t.contains(c)) by {
                    if !t.contains(c) {
                        lemma_split_without_separator(t, c);
                    }
                }
                assert(s.take(f.len() as int) =~= t.take(f.len() as int));
                assert(s[f.len() as int] == t[f.len() as int]);
                assert(s.contains(c)) by {
                    assert(s[f.len() as int] == c);
                }
            }
        }
    }
}


/// The trimmed text never begins with the (non-empty) pattern.
pub proof fn lemma_trim_start_no_leading(s: Seq<char>, p: Seq<char>)
    requires
        p.len() > 0,
    ensures
        !has_prefix(trim_start(s, p), p),
    decreases s.len(),
{
    if has_prefix(s, p) {
        lemma_trim_start_no_leading(s.skip(p.len() as int), p);
    }
}


/// The trimmed text is an end of the text it was trimmed from.
pub proof fn lemma_trim_start_is_suffix(s: Seq<char>, p: Seq<char>)
    ensures
        trim_start(s, p).len() <= s.len(),
        trim_start(s, p) == s.skip(s.len() - trim_start(s, p).len()),
    decreases s.len(),
{
    if p.len() > 0 && has_prefix(s, p) {
        let t = s.skip(p.len() as int);
        lemma_trim_start_is_suffix(t, p);
        assert(t.skip(t.len() - trim_start(t, p).len()) =~= s.skip(
            s.len() - trim_start(t, p).len(),
        ));
    } else {
        assert(s.skip(0) =~= s);
    }
}

/// The trimmed text never ends with the (non-empty) pattern.
pub proof fn lemma_trim_end_no_trailing(s: Seq<char>, p: Seq<char>)
    requires
        p.len() > 0,
    ensures
        !has_suffix(trim_end(s, p), p),
    decreases s.len(),
{
    if has_suffix(s, p) {
        lemma_trim_end_no_trailing(s.take(s.len() - p.len()), p);
    }
}

/// The trimmed text is a prefix of the text it was trimmed from.
pub proof fn lemma_trim_end_is_prefix(s: Seq<char>, p: Seq<char>)
    ensures
        trim_end(s, p).len() <= s.len(),
        trim_end(s, p) == s.take(trim_end(s, p).len() as int),
    decreases s.len(),
{
    if p.len() > 0 && has_suffix(s, p) {
        let t = s.take(s.len() - p.len());
        lemma_trim_end_is_prefix(t, p);
        assert(t.take(trim_end(t, p).len() as int) =~= s.take(trim_end(t, p).len() as int));
    } else {
        assert(s.take(s.len() as int) =~= s);
    }
}


/// Replacing `..` by `.` never lengthens a text, and shortens one that holds
/// two dots in a row.
pub proof fn lemma_collapse_step_shrinks(s: Seq<char>)
    ensures
        replace_all(s, seq!['.', '.'], seq!['.']).len() <= s.len(),
        has_double_dot(s) ==> replace_all(s, seq!['.', '.'], seq!['.']).len() < s.len(),
    decreases s.len(),
{
    if s.len() > 0 {
        let dd = seq!['.', '.'];
        if has_prefix(s, dd) {
            lemma_collapse_step_shrinks(s.skip(2));
        } else {
            let t = s.drop_first();
            lemma_collapse_step_shrinks(t);
            if has_double_dot(s) {
                let i = choose|i: int| 0 <= i < s.len() - 1 && s[i] == '.' && #[trigger] s[i + 1] == '.';
                if i == 0 {
                    assert(s.take(2) =~= dd);
                } else {
                    assert(t[i - 1] == '.' && t[(i - 1) + 1] == '.');
                }
            }
        }
    }
}

/// Collapsing leaves no two dots together.
pub proof fn lemma_collapse_leaves_no_double_dot(s: Seq<char>)
    ensures
        !has_double_dot(collapse_dots(s)),
    decreases s.len(),
{
    if has_double_dot(s) {
        lemma_collapse_step_shrinks(s);
        lemma_collapse_leaves_no_double_dot(replace_all(s, seq!['.', '.'], seq!['.']));
    }
}

/// A replacement of a single character by text without `c` leaves no `c`
/// where the text held none (or where `c` is the replaced character).
pub proof fn lemma_replace_char_absent(s: Seq<char>, from: char, to: Seq<char>, c: char)
    requires
        !to.contains(c),
        c == from || !s.contains(c),
    ensures
        !replace_all(s, seq![from], to).contains(c),
    decreases s.len(),
{
    if s.len() > 0 {
        let t = s.drop_first();
        assert(c == from || !t.contains(c)) by {
            if c != from && t.contains(c) {
                let i = choose|i: int| 0 <= i < t.len() && t[i] == c;
                assert(s[i + 1] == c);
            }
        }
        lemma_replace_char_absent(t, from, to, c);
        let rest = replace_all(t, seq![from], to);
        if has_prefix(s, seq![from]) {
            assert(s.skip(1) =~= t);
            let r = to + rest;
            if r.contains(c) {
                let i = choose|i: int| 0 <= i < r.len() && r[i] == c;
                if i < to.len() {
                    assert(to[i] == c);
                } else {
                    assert(rest[i - to.len()] == c);
                }
            }
        } else {
            assert(s[0] != from) by {
                if s[0] == from {
                    assert(s.take(1) =~= seq![from]);
                }
            }
            assert(s[0] != c) by {
                if c != from {
                    assert(s.contains(s[0]) ==> s[0] != c);
                    assert(s[0] == s[0]);
                }
            }
            let r = seq![s[0]] + rest;
            if r.contains(c) {
                let i = choose|i: int| 0 <= i < r.len() && r[i] == c;
                if i > 0 {
                    assert(rest[i - 1] == c);
                }
            }
        }
    }
}

// ---------------------------------------------------------------------
// Calls into the standard library
// ---------------------------------------------------------------------

/// Calls `String::push`: appends `c` to `s`.
#[verifier::external_body]
pub(crate) fn push_char(s: &mut String, c: char)
    ensures
        final(s)@ == old(s)@.push(c),
{
    s.push(c);
}

/// Calls `char::to_uppercase` and collects what it yields.
/// The result is named `uppercase_of(c)`; what is stated of it is what the
/// documentation shows: an ASCII character maps to its ASCII upper case
/// (and one without an upper-case mapping to itself). The Unicode tables
/// for the other characters are left unstated.
#[verifier::external_body]
pub(crate) fn char_to_uppercase(c: char) -> (r: String)
    ensures
        r@ == uppercase_of(c),
        is_ascii_char(c) ==> r@ == seq![ascii_upper(c)],
{
    c.to_uppercase().collect::<String>()
}

/// Calls `str::to_lowercase`. The result is named `lowercase_of(s@)`; what
/// is stated of it is that an ASCII text is lowered character by character
/// (`to_ascii_lowercase`). The Unicode tables for other text are left
/// unstated.
#[verifier::external_body]
pub(crate) fn str_to_lowercase(s: &str) -> (r: String)
    ensures
        r@ == lowercase_of(s@),
        (forall|i: int| 0 <= i < s@.len() ==> is_ascii_char(#[trigger] s@[i])) ==> r@ == s@.map_values(
            |c: char| ascii_lower(c),
        ),
{
    s.to_lowercase()
}

// ---------------------------------------------------------------------
// Executable operations
// ---------------------------------------------------------------------

/// The characters of `s`, in order.
pub fn chars_of(s: &str) -> (v: Vec<char>)
    ensures
        v@ == s@,
{
    let mut v: Vec<char> = Vec::new();
    for c in it: s.chars()
        invariant
            v@ == it.seq().take(it.index()),
            it.seq() == s@,
    {
        v.push(c);
    }
    v
}

/// The string made of `v[from..to]`.
pub fn string_of_range(v: &Vec<char>, from: usize, to: usize) -> (s: String)
    requires
        from <= to <= v.len(),
    ensures
        s@ == v@.subrange(from as int, to as int),
{
    let mut s = String::new();
    let mut i = from;
    while i < to
        invariant
            from <= i <= to <= v.len(),
            s@ == v@.subrange(from as int, i as int),
        decreases to - i,
    {
        push_char(&mut s, v[i]);
        i += 1;
        assert(s@ =~= v@.subrange(from as int, i as int));
    }
    s
}

/// `s` followed by `t`.
pub fn append_str(s: &mut String, t: &str)
    ensures
        final(s)@ == old(s)@ + t@,
{
    let v = chars_of(t);
    let ghost start = s@;
    let mut i: usize = 0;
    while i < v.len()
        invariant
            i <= v.len(),
            v@ == t@,
            s@ == start + v@.take(i as int),
        decreases v.len() - i,
    {
        push_char(s, v[i]);
        i += 1;
        assert(s@ =~= start + v@.take(i as int));
    }
    assert(v@.take(v@.len() as int) =~= v@);
}

/// Does `v[at..]` begin with `p`?
pub fn prefix_at(v: &Vec<char>, at: usize, p: &Vec<char>) -> (b: bool)
    requires
        at <= v.len(),
    ensures
        b == has_prefix(v@.skip(at as int), p@),
{
    if p.len() > v.len() - at {
        return false;
    }
    let mut j: usize = 0;
    while j < p.len()
        invariant
            at + p.len() <= v.len(),
            j <= p.len(),
            forall|k: int| 0 <= k < j ==> v@[at + k] == p@[k],
        decreases p.len() - j,
    {
        if v[at + j] != p[j] {
            assert(v@.skip(at as int).take(p.len() as int)[j as int] != p@[j as int]);
            return false;
        }
        j += 1;
    }
    assert(v@.skip(at as int).take(p.len() as int) =~= p@);
    true
}

/// Does `v` hold `c`?
pub fn contains_char(v: &Vec<char>, c: char) -> (b: bool)
    ensures
        b == v@.contains(c),
{
    let mut i: usize = 0;
    while i < v.len()
        invariant
            i <= v.len(),
            forall|k: int| 0 <= k < i ==> v@[k] != c,
        decreases v.len() - i,
    {
        if v[i] == c {
            return true;
        }
        i += 1;
    }
    false
}

/// The position where `trim_start` leaves `v[from..]`.
pub fn trim_start_at(v: &Vec<char>, from: usize, p: &Vec<char>) -> (k: usize)
    requires
        from <= v.len(),
    ensures
        from <= k <= v.len(),
        v@.skip(k as int) == trim_start(v@.skip(from as int), p@),
{
    let mut i = from;
    while p.len() > 0 && prefix_at(v, i, p)
        invariant
            from <= i <= v.len(),
            trim_start(v@.skip(i as int), p@) == trim_start(v@.skip(from as int), p@),
        decreases v.len() - i,
    {
        let ghost before = v@.skip(i as int);
        i = i + p.len();
        assert(before.skip(p@.len() as int) =~= v@.skip(i as int));
    }
    i
}

/// The position where `trim_end` leaves `v[..to]`.
pub fn trim_end_at(v: &Vec<char>, to: usize, p: &Vec<char>) -> (k: usize)
    requires
        to <= v.len(),
    ensures
        k <= to,
        v@.take(k as int) == trim_end(v@.take(to as int), p@),
{
    let mut i = to;
    while p.len() > 0 && p.len() <= i && prefix_at(v, i - p.len(), p)
        invariant
            i <= to <= v.len(),
            trim_end(v@.take(i as int), p@) == trim_end(v@.take(to as int), p@),
        decreases i,
    {
        let ghost before = v@.take(i as int);
        assert(before.skip(before.len() - p@.len()) =~= v@.skip(i - p@.len()).take(
            p@.len() as int,
        ));
        i = i - p.len();
        assert(before.take(before.len() - p@.len()) =~= v@.take(i as int));
    }
    proof {
        if p@.len() > 0 && p@.len() <= i {
            let before = v@.take(i as int);
            assert(before.skip(before.len() - p@.len()) =~= v@.skip(i - p@.len()).take(
                p@.len() as int,
            ));
        }
    }
    i
}

/// `s` with every leading copy of `p` removed (`str::trim_start_matches`).
pub fn trim_start_matches(s: &str, p: &str) -> (r: String)
    ensures
        r@ == trim_start(s@, p@),
{
    let v = chars_of(s);
    let pv = chars_of(p);
    let k = trim_start_at(&v, 0, &pv);
    assert(v@.skip(0) =~= v@);
    assert(v@.subrange(k as int, v@.len() as int) =~= v@.skip(k as int));
    string_of_range(&v, k, v.len())
}

/// `s` with every trailing copy of `p` removed (`str::trim_end_matches`).
pub fn trim_end_matches(s: &str, p: &str) -> (r: String)
    ensures
        r@ == trim_end(s@, p@),
{
    let v = chars_of(s);
    let pv = chars_of(p);
    let k = trim_end_at(&v, v.len(), &pv);
    assert(v@.take(v@.len() as int) =~= v@);
    assert(v@.subrange(0, k as int) =~= v@.take(k as int));
    string_of_range(&v, 0, k)
}

/// Does `s` end with `p`?
pub fn ends_with(s: &str, p: &str) -> (b: bool)
    ensures
        b == has_suffix(s@, p@),
{
    let v = chars_of(s);
    let pv = chars_of(p);
    if pv.len() > v.len() {
        return false;
    }
    let b = prefix_at(&v, v.len() - pv.len(), &pv);
    assert(v@.skip(v@.len() - pv@.len()).take(pv@.len() as int) =~= v@.skip(
        v@.len() - pv@.len(),
    ));
    b
}

/// Every occurrence of `from` in `s`, from left to right, replaced by `to`
/// (`str::replace`).
pub fn replace(s: &str, from: &str, to: &str) -> (r: String)
    requires
        from@.len() > 0,
    ensures
        r@ == replace_all(s@, from@, to@),
{
    let v = chars_of(s);
    let fv = chars_of(from);
    let mut r = String::new();
    let mut i: usize = 0;
    assert(v@.skip(0) =~= v@);
    assert(r@ + replace_all(v@, from@, to@) =~= replace_all(v@, from@, to@));
    while i < v.len()
        invariant
            i <= v.len(),
            v@ == s@,
            fv@ == from@,
            fv@.len() > 0,
            r@ + replace_all(v@.skip(i as int), from@, to@) == replace_all(s@, from@, to@),
        decreases v.len() - i,
    {
        let ghost rest = v@.skip(i as int);
        if prefix_at(&v, i, &fv) {
            append_str(&mut r, to);
            i = i + fv.len();
            assert(rest.skip(fv@.len() as int) =~= v@.skip(i as int));
            assert(r@ + replace_all(v@.skip(i as int), from@, to@) =~= replace_all(
                s@,
                from@,
                to@,
            ));
        } else {
            push_char(&mut r, v[i]);
            i = i + 1;
            assert(rest.drop_first() =~= v@.skip(i as int));
            assert(r@ + replace_all(v@.skip(i as int), from@, to@) =~= replace_all(
                s@,
                from@,
                to@,
            ));
        }
    }
    assert(v@.skip(i as int) =~= Seq::<char>::empty());
    assert(r@ + Seq::<char>::empty() =~= r@);
    r
}

/// The pieces of `s` between occurrences of `c` (`str::split` on a char).
pub fn split_char(s: &str, c: char) -> (parts: Vec<String>)
    ensures
        views(parts@) == split_on(s@, c),
{
    let v = chars_of(s);
    let mut parts: Vec<String> = Vec::new();
    let mut cur = String::new();
    let mut i: usize = 0;
    assert(v@.take(0) =~= Seq::<char>::empty());
    assert(views(parts@).push(cur@) =~= split_on(v@.take(0), c));
    while i < v.len()
        invariant
            i <= v.len(),
            v@ == s@,
            views(parts@).push(cur@) == split_on(v@.take(i as int), c),
        decreases v.len() - i,
    {
        let ghost pre = v@.take(i as int);
        let ghost nxt = v@.take(i + 1);
        assert(nxt.drop_last() =~= pre);
        assert(nxt.last() == v@[i as int]);
        if v[i] == c {
            parts.push(cur);
            cur = String::new();
            assert(views(parts@).push(cur@) =~= split_on(pre, c).push(Seq::<char>::empty()));
        } else {
            let ghost old_parts = views(parts@);
            push_char(&mut cur, v[i]);
            assert(views(parts@).push(cur@) =~= split_on(pre, c).update(
                split_on(pre, c).len() - 1,
                split_on(pre, c).last().push(v@[i as int]),
            ));
        }
        i += 1;
    }
    assert(v@.take(v@.len() as int) =~= v@);
    parts.push(cur);
    parts
}

/// Are `a` and `b` the same text?
pub fn str_eq(a: &str, b: &str) -> (r: bool)
    ensures
        r == (a@ == b@),
{
    let av = chars_of(a);
    let bv = chars_of(b);
    if av.len() != bv.len() {
        assert(av@.len() != bv@.len());
        return false;
    }
    let mut i: usize = 0;
    while i < av.len()
        invariant
            i <= av.len() == bv.len(),
            av@ == a@,
            bv@ == b@,
            forall|k: int| 0 <= k < i ==> av@[k] == bv@[k],
        decreases av.len() - i,
    {
        if av[i] != bv[i] {
            assert(av@[i as int] != bv@[i as int]);
            assert(av@ != bv@);
            return false;
        }
        i += 1;
    }
    assert(av@ =~= bv@);
    true
}

/// The text before the first `c`, and what follows that `c` if there is one
/// (`str::splitn(2, c)`).
pub fn split_first(s: &str, c: char) -> (r: (String, Option<String>))
    ensures
        r.0@ == before_first(s@, c),
        match r.1 {
            Some(rest) => after_first(s@, c) == Some(rest@),
            None => after_first(s@, c) is None,
        },
{
    let v = chars_of(s);
    proof {
        lemma_first_piece(s@, c);
    }
    let mut i: usize = 0;
    while i < v.len() && v[i] != c
        invariant
            i <= v.len(),
            v@ == s@,
            forall|k: int| 0 <= k < i ==> v@[k] != c,
        decreases v.len() - i,
    {
        i += 1;
    }
    let ghost f = before_first(s@, c);
    assert(f.len() == i) by {
        if f.len() < i {
            if s@.contains(c) {
                assert(v@[f.len() as int] == c);
            } else {
                assert(f == s@);
            }
        } else if f.len() > i {
            assert(v@[i as int] == f[i as int]);
            assert(f.contains(c));
        }
    }
    let head = string_of_range(&v, 0, i);
    assert(v@.subrange(0, i as int) =~= v@.take(i as int));
    if i < v.len() {
        assert(s@.contains(c));
        let rest = string_of_range(&v, i + 1, v.len());
        assert(v@.subrange(i + 1, v@.len() as int) =~= v@.skip(i + 1));
        (head, Some(rest))
    } else {
        assert(!s@.contains(c)) by {
            if s@.contains(c) {
                assert(f.len() < s@.len());
            }
        }
        (head, None)
    }
}

/// The pieces of `s` between the occurrences of `p`, from left to right
/// (`str::split` on a non-empty string pattern).
pub fn split_string(s: &str, p: &str) -> (parts: Vec<String>)
    requires
        p@.len() > 0,
    ensures
        views(parts@) == split_str(s@, p@),
{
    let v = chars_of(s);
    let pv = chars_of(p);
    let mut parts: Vec<String> = Vec::new();
    let mut cur = String::new();
    let mut i: usize = 0;
    assert(v@.skip(0) =~= v@);
    proof {
        lemma_split_str_nonempty(s@, p@);
        let r = split_str(s@, p@);
        assert(r.update(0, cur@ + r[0]) =~= r);
        assert(views(parts@) + r =~= r);
    }
    while i < v.len()
        invariant
            i <= v.len(),
            v@ == s@,
            pv@ == p@,
            p@.len() > 0,
            ({
                let r = split_str(v@.skip(i as int), p@);
                &&& r.len() >= 1
                &&& views(parts@) + r.update(0, cur@ + r[0]) == split_str(s@, p@)
            }),
        decreases v.len() - i,
    {
        let ghost rest = v@.skip(i as int);
        let ghost old_parts = views(parts@);
        let ghost old_cur = cur@;
        if prefix_at(&v, i, &pv) {
            parts.push(cur);
            cur = String::new();
            i = i + pv.len();
            proof {
                assert(rest.skip(p@.len() as int) =~= v@.skip(i as int));
                lemma_split_str_nonempty(v@.skip(i as int), p@);
                let r2 = split_str(v@.skip(i as int), p@);
                assert(r2.update(0, cur@ + r2[0]) =~= r2);
                assert(views(parts@) =~= old_parts.push(old_cur));
                let whole = split_str(rest, p@);
                assert(whole =~= seq![Seq::<char>::empty()] + r2);
                assert(whole.update(0, old_cur + whole[0]) =~= seq![old_cur] + r2);
                assert(views(parts@) + r2.update(0, cur@ + r2[0]) =~= old_parts + whole.update(
                    0,
                    old_cur + whole[0],
                ));
            }
        } else {
            push_char(&mut cur, v[i]);
            i = i + 1;
            proof {
                assert(rest.drop_first() =~= v@.skip(i as int));
                lemma_split_str_nonempty(v@.skip(i as int), p@);
                let r2 = split_str(v@.skip(i as int), p@);
                let whole = split_str(rest, p@);
                assert(rest[0] == v@[i - 1]);
                assert(whole == r2.update(0, seq![rest[0]] + r2[0]));
                assert(whole[0] == seq![rest[0]] + r2[0]);
                assert(cur@ == old_cur.push(rest[0]));
                assert(old_cur + (seq![rest[0]] + r2[0]) =~= cur@ + r2[0]);
                assert(whole.update(0, old_cur + whole[0]) =~= r2.update(0, cur@ + r2[0]));
                assert(views(parts@) == old_parts);
            }
        }
    }
    proof {
        assert(v@.skip(i as int) =~= Seq::<char>::empty());
        let r = split_str(v@.skip(i as int), p@);
        assert(r =~= seq![Seq::<char>::empty()]);
        assert(cur@ + Seq::<char>::empty() =~= cur@);
    }
    let ghost before = views(parts@);
    parts.push(cur);
    assert(views(parts@) =~= before.push(cur@));
    proof {
        let r = split_str(v@.skip(i as int), p@);
        assert(before + r.update(0, cur@ + r[0]) =~= before.push(cur@));
    }
    parts
}

/// The parts concatenated with `sep` between neighbours (`[T]::join`).
pub fn join_with(parts: &Vec<String>, sep: char) -> (r: String)
    ensures
        r@ == join(views(parts@), seq![sep]),
{
    let mut r = String::new();
    let mut i: usize = 0;
    while i < parts.len()
        invariant
            i <= parts.len(),
            r@ == join(views(parts@).take(i as int), seq![sep]),
        decreases parts.len() - i,
    {
        let ghost pre = views(parts@).take(i as int);
        let ghost nxt = views(parts@).take(i + 1);
        assert(nxt.drop_last() =~= pre);
        assert(nxt.last() == parts@[i as int]@);
        if i > 0 {
            push_char(&mut r, sep);
        }
        append_str(&mut r, parts[i].as_str());
        i += 1;
        proof {
            if i == 1 {
                assert(r@ =~= nxt[0]);
            } else {
                assert(r@ =~= join(pre, seq![sep]) + seq![sep] + nxt.last());
            }
        }
    }
    assert(views(parts@).take(parts@.len() as int) =~= views(parts@));
    r
}

} // verus!
