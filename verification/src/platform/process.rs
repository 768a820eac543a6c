//! Executable lookup: the extensions that `PATHEXT` lists, and where ssh usually lives.

use vstd::prelude::*;

use crate::config::model::opt_text;
use crate::text::{chars_of, copy_chars, find_char, find_char_index, joined, lemma_find_char, push_joined, string_of};

verus! {

/// The non-empty pieces of `s` between `;` separators.
pub open spec fn pathext_pieces(s: Seq<char>) -> Seq<Seq<char>>
    decreases s.len(),
{
    if s.len() == 0 {
        seq![]
    } else {
        proof {
            lemma_find_char(s, ';');
        }
        match find_char(s, ';') {
            None => seq![s],
            Some(i) => (if i > 0 {
                seq![s.take(i)]
            } else {
                seq![]
            }) + pathext_pieces(s.skip(i + 1)),
        }
    }
}

/// The extensions that an executable name may lack: the pieces of `PATHEXT`, or `.EXE`
/// alone when it is not set.
pub open spec fn spec_pathext_list(value: Option<Seq<char>>) -> Seq<Seq<char>> {
    match value {
        Some(v) => pathext_pieces(v),
        None => seq![".EXE"@],
    }
}

/// The extensions to try after an executable name.
pub fn pathext_list(value: Option<&str>) -> (v: Vec<String>)
    ensures
        v@.map_values(|s: String| s@) == spec_pathext_list(
            match value {
                Some(t) => Some(t@),
                None => None,
            },
        ),
{
    let text = match value {
        Some(t) => t,
        None => {
            let mut v: Vec<String> = Vec::new();
            v.push(".EXE".to_owned());
            assert(v@.map_values(|s: String| s@) =~= seq![".EXE"@]);
            return v;
        },
    };
    let s = chars_of(text);
    let mut v: Vec<String> = Vec::new();
    let mut start: usize = 0;
    assert(s@.skip(0) =~= s@);
    while start < s.len()
        invariant
            start <= s@.len(),
            s@ == text@,
            pathext_pieces(s@) == v@.map_values(|x: String| x@) + pathext_pieces(s@.skip(start as int)),
        decreases s@.len() - start,
    {
        let ghost rest = s@.skip(start as int);
        let tail = copy_chars(s.as_slice(), start, s.len());
        assert(tail@ =~= rest);
        let ghost before = v@.map_values(|x: String| x@);
        proof {
            lemma_find_char(rest, ';');
        }
        match find_char_index(tail.as_slice(), ';') {
            None => {
                v.push(string_of(tail.as_slice()));
                assert(v@.map_values(|x: String| x@) =~= before + pathext_pieces(rest));
                start = s.len();
                assert(s@.skip(start as int) =~= Seq::<char>::empty());
                assert(v@.map_values(|x: String| x@) + pathext_pieces(s@.skip(start as int)) =~= v@.map_values(
                    |x: String| x@,
                ));
            },
            Some(i) => {
                let n = s.len();
                assert(start + i < n);
                if i > 0 {
                    let piece = copy_chars(s.as_slice(), start, start + i);
                    assert(piece@ =~= rest.take(i as int));
                    v.push(string_of(piece.as_slice()));
                    assert(v@.map_values(|x: String| x@) =~= before + seq![rest.take(i as int)]);
                } else {
                    assert(v@.map_values(|x: String| x@) =~= before);
                }
                assert(rest.skip(i + 1) =~= s@.skip(start + i + 1));
                start = start + i + 1;
            },
        }
    }
    assert(s@.skip(start as int) =~= Seq::<char>::empty());
    assert(v@.map_values(|x: String| x@) =~= pathext_pieces(s@));
    v
}

/// Where OpenSSH for Windows usually lives, in the order they are tried: under the system root
/// (`SystemRoot`, when it is set), then the usual system and program locations.
pub open spec fn spec_ssh_candidates(system_root: Option<Seq<char>>, sep: char) -> Seq<Seq<char>> {
    let usual = seq!["C:\\Windows\\System32\\OpenSSH\\ssh.exe"@, "C:\\Program Files\\OpenSSH\\ssh.exe"@];
    match system_root {
        Some(r) => seq![joined(joined(joined(r, "System32"@, sep), "OpenSSH"@, sep), "ssh.exe"@, sep)] + usual,
        None => usual,
    }
}

/// The places to look for ssh, from the value of `SystemRoot` and the platform's separator.
pub fn ssh_candidates(system_root: Option<String>, sep: char) -> (v: Vec<String>)
    ensures
        v@.map_values(|p: String| p@) == spec_ssh_candidates(opt_text(system_root), sep),
{
    let mut v: Vec<String> = Vec::new();
    let ghost root = opt_text(system_root);
    if let Some(r) = system_root {
        let mut p = r;
        push_joined(&mut p, "System32", sep);
        push_joined(&mut p, "OpenSSH", sep);
        push_joined(&mut p, "ssh.exe", sep);
        v.push(p);
    }
    v.push("C:\\Windows\\System32\\OpenSSH\\ssh.exe".to_owned());
    v.push("C:\\Program Files\\OpenSSH\\ssh.exe".to_owned());
    assert(v@.map_values(|p: String| p@) =~= spec_ssh_candidates(root, sep));
    v
}

} // verus!
