//! The decomposed path record and its construction.
use vstd::prelude::*;

use crate::model::{
    directory_of, extension_of, extension_start, filename_of, last_index_of, separator, stem_of,
};

verus! {

/// A path or URL string together with its directory, file name, stem and
/// extension.
#[derive(Debug)]
pub struct FileUrl {
    url: String,
    path: String,
    filename: String,
    filename_without_extension: String,
    extension: String,
}

impl View for FileUrl {
    type V = Seq<char>;

    /// A decomposed path is determined by the string it was made from.
    closed spec fn view(&self) -> Seq<char> {
        self.url@
    }
}

impl FileUrl {
    #[verifier::type_invariant]
    spec fn parts_agree(self) -> bool {
        &&& self.path@ == directory_of(self.url@)
        &&& self.filename@ == filename_of(self.url@)
        &&& self.filename_without_extension@ == stem_of(self.url@)
        &&& self.extension@ == extension_of(self.url@)
    }
}

/// The characters of `s`, in order.
fn chars_of(s: &str) -> (r: Vec<char>)
    ensures
        r@ == s@,
{
    let mut r: Vec<char> = Vec::new();
    for c in it: s.chars()
        invariant
            r@ == it.seq().take(it.index() as int),
    {
        r.push(c);
    }
    r
}

/// Index of the last `c` among `chars[start..end]`, or `None` where there is none.
fn rfind_char(chars: &Vec<char>, start: usize, end: usize, c: char) -> (r: Option<usize>)
    requires
        start <= end <= chars.len(),
    ensures
        match r {
            Some(i) => start <= i < end && i - start == last_index_of(
                chars@.subrange(start as int, end as int),
                c,
            ),
            None => last_index_of(chars@.subrange(start as int, end as int), c) == -1,
        },
{
    let mut i: usize = end;
    while i > start
        invariant
            start <= i <= end <= chars.len(),
            last_index_of(chars@.subrange(start as int, end as int), c) == last_index_of(
                chars@.subrange(start as int, i as int),
                c,
            ),
        decreases i,
    {
        assert(chars@.subrange(start as int, i as int).drop_last() =~= chars@.subrange(
            start as int,
            i - 1,
        ));
        if chars[i - 1] == c {
            return Some(i - 1);
        }
        i = i - 1;
    }
    None
}

/// Where the extension of the name `chars[start..end]` starts, as an index
/// into `chars`.
fn extension_start_in(chars: &Vec<char>, start: usize, end: usize) -> (r: usize)
    requires
        start <= end <= chars.len(),
    ensures
        start <= r <= end,
        r - start == extension_start(chars@.subrange(start as int, end as int)),
{
    let ghost name = chars@.subrange(start as int, end as int);
    match rfind_char(chars, start, end, '.') {
        Some(d) if d > start && d + 1 < end => {
            let ghost inner = name.subrange(0, d - start);
            assert(inner =~= chars@.subrange(start as int, d as int));
            match rfind_char(chars, start, d, '.') {
                Some(e) if e > start && d - e == 4 && chars[e + 1] == 't' && chars[e + 2] == 'a'
                    && chars[e + 3] == 'r' => {
                    assert(inner.subrange(e - start + 1, d - start) =~= seq!['t', 'a', 'r']);
                    e
                },
                Some(e) => {
                    proof {
                        let seg = inner.subrange(e - start + 1, d - start);
                        if seg == seq!['t', 'a', 'r'] {
                            assert(seg.len() == 3);
                            assert(seg[0] == chars@[e + 1] && seg[1] == chars@[e + 2] && seg[2]
                                == chars@[e + 3]);
                        }
                    }
                    d
                },
                None => d,
            }
        },
        _ => end,
    }
}

impl FileUrl {
    /// Decomposes `url`. Never fails: a missing part comes out empty.
    pub fn new(url: &str) -> (r: FileUrl)
        ensures
            r@ == url@,
    {
        let chars = chars_of(url);
        let n = chars.len();
        let ghost s = url@;
        assert(s.subrange(0, n as int) =~= s);
        let name_start: usize = match rfind_char(&chars, 0, n, '/') {
            Some(k) => k + 1,
            None => 0,
        };
        let ghost name = s.subrange(name_start as int, n as int);
        assert(name == filename_of(s));
        let ext_start = extension_start_in(&chars, name_start, n);
        proof {
            assert(s.subrange(name_start as int, ext_start as int) =~= name.subrange(
                0,
                extension_start(name),
            ));
            assert(s.subrange(ext_start as int, n as int) =~= name.subrange(
                extension_start(name),
                name.len() as int,
            ));
        }
        let dir_end: usize = if name_start > 0 {
            name_start - 1
        } else {
            0
        };
        assert(s.subrange(0, dir_end as int) =~= directory_of(s));
        FileUrl {
            url: url.to_owned(),
            path: url.substring_char(0, dir_end).to_owned(),
            filename: url.substring_char(name_start, n).to_owned(),
            filename_without_extension: url.substring_char(name_start, ext_start).to_owned(),
            extension: url.substring_char(ext_start, n).to_owned(),
        }
    }

    /// The string this record was made from, unchanged.
    pub fn url(&self) -> (r: &String)
        ensures
            r@ == self@,
    {
        &self.url
    }

    /// Everything before the last `/`; empty where there is none.
    pub fn path(&self) -> (r: &String)
        ensures
            r@ == directory_of(self@),
    {
        proof {
            use_type_invariant(self);
        }
        &self.path
    }

    /// Everything after the last `/`.
    pub fn filename(&self) -> (r: &String)
        ensures
            r@ == filename_of(self@),
    {
        proof {
            use_type_invariant(self);
        }
        &self.filename
    }

    /// The file name without its extension.
    pub fn filename_without_extension(&self) -> (r: &String)
        ensures
            r@ == stem_of(self@),
    {
        proof {
            use_type_invariant(self);
        }
        &self.filename_without_extension
    }

    /// The extension of the file name, dot included; empty where it has none.
    pub fn extension(&self) -> (r: &String)
        ensures
            r@ == extension_of(self@),
    {
        proof {
            use_type_invariant(self);
        }
        &self.extension
    }
}

} // verus!
