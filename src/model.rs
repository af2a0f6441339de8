//! The mathematical model of a decomposed path, over sequences of characters.
use vstd::prelude::*;

verus! {

/// The character that separates a directory from the name that follows it.
pub open spec fn separator() -> char {
    '/'
}

/// The index of the last occurrence of `c` in `s`, or -1 where `c` does not occur.
pub open spec fn last_index_of(s: Seq<char>, c: char) -> int
    decreases s.len(),
{
    if s.len() == 0 {
        -1
    } else if s.last() == c {
        s.len() - 1
    } else {
        last_index_of(s.drop_last(), c)
    }
}

/// Everything before the last separator; empty where there is none.
pub open spec fn directory_of(s: Seq<char>) -> Seq<char> {
    let k = last_index_of(s, separator());
    if k < 0 {
        Seq::empty()
    } else {
        s.subrange(0, k)
    }
}

/// Everything after the last separator; the whole input where there is none.
pub open spec fn filename_of(s: Seq<char>) -> Seq<char> {
    s.subrange(last_index_of(s, separator()) + 1, s.len() as int)
}

/// A name carries a single extension when its last dot is neither its first
/// nor its last character.
pub open spec fn has_single_extension(name: Seq<char>) -> bool {
    let d = last_index_of(name, '.');
    0 < d && d + 1 < name.len()
}

/// Where the extension of `name` starts: at the last dot, one segment further
/// left where the segment before that dot is a `tar` extension, and at the end
/// of `name` where it has no extension.
pub open spec fn extension_start(name: Seq<char>) -> int {
    let d = last_index_of(name, '.');
    if !has_single_extension(name) {
        name.len() as int
    } else {
        let inner = name.subrange(0, d);
        let e = last_index_of(inner, '.');
        if has_single_extension(inner) && inner.subrange(e + 1, d) == seq!['t', 'a', 'r'] {
            e
        } else {
            d
        }
    }
}

/// The extension of the file named by `s`: empty, or a dot-prefixed suffix
/// of its file name.
pub open spec fn extension_of(s: Seq<char>) -> Seq<char> {
    let name = filename_of(s);
    name.subrange(extension_start(name), name.len() as int)
}

/// The file name of `s` without its extension.
pub open spec fn stem_of(s: Seq<char>) -> Seq<char> {
    let name = filename_of(s);
    name.subrange(0, extension_start(name))
}

/// `last_index_of` is -1 or a valid index holding `c`, with no `c` after it.
pub proof fn lemma_last_index_of(s: Seq<char>, c: char)
    ensures
        -1 <= last_index_of(s, c) < s.len(),
        last_index_of(s, c) >= 0 ==> s[last_index_of(s, c)] == c,
        forall|j: int| last_index_of(s, c) < j < s.len() ==> s[j] != c,
    decreases s.len(),
{
    if s.len() > 0 && s.last() != c {
        lemma_last_index_of(s.drop_last(), c);
        assert forall|j: int| last_index_of(s, c) < j < s.len() implies s[j] != c by {
            if j < s.len() - 1 {
                assert(s[j] == s.drop_last()[j]);
            }
        }
    }
}

/// The last `c` in `a + [c] + b`, where `b` holds no `c`, is the one between them.
pub proof fn lemma_last_index_of_split(a: Seq<char>, c: char, b: Seq<char>)
    requires
        forall|j: int| 0 <= j < b.len() ==> b[j] != c,
    ensures
        last_index_of(a + seq![c] + b, c) == a.len(),
{
    let t = a + seq![c] + b;
    lemma_last_index_of(t, c);
    let k = last_index_of(t, c);
    assert(t[a.len() as int] == c);
    if k > a.len() {
        assert(t[k] == b[k - a.len() - 1]);
    }
}

/// The file name never holds a separator.
pub proof fn lemma_filename_has_no_separator(s: Seq<char>)
    ensures
        forall|j: int| 0 <= j < filename_of(s).len() ==> filename_of(s)[j] != separator(),
{
    lemma_last_index_of(s, separator());
    let k = last_index_of(s, separator());
    assert forall|j: int| 0 <= j < filename_of(s).len() implies filename_of(s)[j] != separator() by {
        assert(filename_of(s)[j] == s[k + 1 + j]);
    }
}

/// The extension starts within the file name.
pub proof fn lemma_extension_start_bounds(name: Seq<char>)
    ensures
        0 <= extension_start(name) <= name.len(),
{
    lemma_last_index_of(name, '.');
    let d = last_index_of(name, '.');
    if has_single_extension(name) {
        lemma_last_index_of(name.subrange(0, d), '.');
    }
}

/// The file name is its stem followed by its extension; with no extension,
/// the stem is the whole file name.
pub proof fn lemma_filename_is_stem_then_extension(s: Seq<char>)
    ensures
        filename_of(s) == stem_of(s) + extension_of(s),
        extension_of(s).len() == 0 ==> stem_of(s) == filename_of(s),
{
    lemma_extension_start_bounds(filename_of(s));
    assert(filename_of(s) =~= stem_of(s) + extension_of(s));
}

/// An extension is empty, or a dot followed by at least one character that
/// is not a dot.
pub proof fn lemma_extension_starts_with_one_dot(s: Seq<char>)
    ensures
        extension_of(s).len() == 0 || (extension_of(s).len() >= 2 && extension_of(s)[0] == '.'
            && extension_of(s)[1] != '.'),
{
    let name = filename_of(s);
    lemma_last_index_of(name, '.');
    let d = last_index_of(name, '.');
    if has_single_extension(name) {
        let inner = name.subrange(0, d);
        lemma_last_index_of(inner, '.');
        let e = last_index_of(inner, '.');
        if has_single_extension(inner) && inner.subrange(e + 1, d) == seq!['t', 'a', 'r'] {
            assert(inner.subrange(e + 1, d)[0] == 't');
            assert(extension_of(s)[1] == name[e + 1]);
        } else {
            assert(extension_of(s)[1] == name[d + 1]);
        }
    }
}

/// Parsing the directory, a separator and the file name again gives the same
/// file name, stem and extension.
pub proof fn lemma_reparse_keeps_name(s: Seq<char>)
    ensures
        filename_of(directory_of(s) + seq![separator()] + filename_of(s)) == filename_of(s),
        stem_of(directory_of(s) + seq![separator()] + filename_of(s)) == stem_of(s),
        extension_of(directory_of(s) + seq![separator()] + filename_of(s)) == extension_of(s),
{
    let t = directory_of(s) + seq![separator()] + filename_of(s);
    lemma_filename_has_no_separator(s);
    lemma_last_index_of_split(directory_of(s), separator(), filename_of(s));
    assert(filename_of(t) =~= filename_of(s));
}

} // verus!
