//! Linker choice and the names the link step derives.
//!
//! Running the link command, writing the runtime object and finding tools on
//! the machine are the caller's part.
use vstd::prelude::*;

use crate::text::{
    chars_of, contains_chars, contains_seq, push_str, string_of, rfind_char, last_index,
    lemma_last_index,
};

verus! {

/// Which linker links the executable.
#[derive(Debug, Clone, Copy, Default, PartialEq, Eq, Structural)]
pub enum LinkerChoice {
    /// The platform's system linker (`cc` on Unix, `link` on Windows).
    #[default]
    System,
    /// The Rust toolchain's `rust-lld`.
    Bundled,
}

/// `c` with `/` made `\` and ASCII letters lower-cased.
pub open spec fn fold_path_char(c: char) -> char {
    if c == '/' {
        '\\'
    } else {
        crate::names::ascii_lower(c)
    }
}

/// A path as compared for the MSVC test: `\` separators, lower case.
pub open spec fn folded_path(p: Seq<char>) -> Seq<char> {
    p.map_values(|c: char| fold_path_char(c))
}

/// `\vc\` as characters.
pub open spec fn vc_marker() -> Seq<char> {
    seq!['\\', 'v', 'c', '\\']
}

/// Whether a `link.exe` path lies in an MSVC toolchain (a `\VC\` directory,
/// in any case and with either separator), as opposed to the GNU coreutils
/// `link` of Git for Windows or MSYS2.
pub fn is_msvc_link_path(path: &str) -> (r: bool)
    ensures
        r == contains_seq(folded_path(path@), vc_marker()),
{
    let chars = chars_of(path);
    let mut folded: Vec<char> = Vec::new();
    let mut i: usize = 0;
    while i < chars.len()
        invariant
            i <= chars.len(),
            chars@ == path@,
            folded@ == folded_path(chars@.take(i as int)),
        decreases chars.len() - i,
    {
        let c = chars[i];
        let f = if c == '/' {
            '\\'
        } else if 'A' <= c && c <= 'Z' {
            (((c as u32) + 32) as u8) as char
        } else {
            c
        };
        folded.push(f);
        i = i + 1;
        assert(folded@ =~= folded_path(chars@.take(i as int)));
    }
    assert(chars@.take(chars@.len() as int) =~= chars@);
    let marker = vec!['\\', 'v', 'c', '\\'];
    assert(marker@ =~= vc_marker());
    contains_chars(&folded, &marker)
}

/// The file name of `p`: what follows its last `/`.
pub open spec fn file_name_part(p: Seq<char>) -> Seq<char> {
    match last_index(p, '/') {
        Some(i) => p.skip(i + 1),
        None => p,
    }
}

/// The directory part of `p`: up to and including its last `/`.
pub open spec fn directory_part(p: Seq<char>) -> Seq<char> {
    match last_index(p, '/') {
        Some(i) => p.take(i + 1),
        None => seq![],
    }
}

/// The stem of a file name: before its last `.`, unless that `.` starts the
/// name.
pub open spec fn stem_part(name: Seq<char>) -> Seq<char> {
    match last_index(name, '.') {
        Some(i) => if i > 0 {
            name.take(i)
        } else {
            name
        },
        None => name,
    }
}

/// Where the runtime object goes: beside `object`, with the same stem and the
/// name `<stem>.runtime.<suffix>`.
pub open spec fn runtime_object_text(object: Seq<char>, suffix: Seq<char>) -> Seq<char> {
    directory_part(object) + stem_part(file_name_part(object)) + seq![
        '.',
        'r',
        'u',
        'n',
        't',
        'i',
        'm',
        'e',
        '.',
    ] + suffix
}

/// The path of the runtime object for the object file `object`.
pub fn runtime_object_path(object: &str, object_suffix: &str) -> (r: String)
    ensures
        r@ == runtime_object_text(object@, object_suffix@),
{
    let chars = chars_of(object);
    proof {
        lemma_last_index(chars@, '/');
    }
    let (dir_end, name) = match rfind_char(&chars, '/') {
        Some(i) => (i + 1, string_of(&chars, i + 1, chars.len())),
        None => (0, string_of(&chars, 0, chars.len())),
    };
    proof {
        assert(chars@.subrange(0, chars@.len() as int) =~= chars@);
        if let Some(i) = last_index(chars@, '/') {
            assert(chars@.subrange(i + 1, chars@.len() as int) =~= chars@.skip(i + 1));
        }
    }
    assert(name@ == file_name_part(object@));
    let mut r = string_of(&chars, 0, dir_end);
    proof {
        if let Some(i) = last_index(chars@, '/') {
            assert(chars@.subrange(0, i + 1) =~= chars@.take(i + 1));
        } else {
            assert(chars@.subrange(0, 0) =~= Seq::<char>::empty());
        }
    }
    let name_chars = chars_of(name.as_str());
    proof {
        lemma_last_index(name_chars@, '.');
    }
    let stem_end = match rfind_char(&name_chars, '.') {
        Some(i) => if i > 0 {
            i
        } else {
            name_chars.len()
        },
        None => name_chars.len(),
    };
    let stem = string_of(&name_chars, 0, stem_end);
    proof {
        assert(name_chars@.subrange(0, name_chars@.len() as int) =~= name_chars@);
        if let Some(i) = last_index(name_chars@, '.') {
            assert(name_chars@.subrange(0, i) =~= name_chars@.take(i));
        }
    }
    push_str(&mut r, stem.as_str());
    push_str(&mut r, ".runtime.");
    push_str(&mut r, object_suffix);
    proof {
        reveal_strlit(".runtime.");
    }
    assert(r@ =~= runtime_object_text(object@, object_suffix@));
    r
}

} // verus!
