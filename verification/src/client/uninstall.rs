//! The uninstaller's questions and the PowerShell it leaves behind.

use vstd::prelude::*;

use crate::client::update::{escape_powershell_single_quoted, ps_escaped};
use crate::text::{chars_equal_str, chars_of, lower_all, lower_chars, push_str, trim, trim_chars};

verus! {

/// Whether an answer to "Proceed? [y/N]" agrees: `y` or `yes` in any ASCII case, around
/// whitespace.
pub open spec fn spec_confirmed(input: Seq<char>) -> bool {
    let w = lower_all(trim(input));
    w == "y"@ || w == "yes"@
}

pub fn is_confirmed(input: &str) -> (b: bool)
    ensures
        b == spec_confirmed(input@),
{
    let c = chars_of(input);
    let t = trim_chars(c.as_slice());
    let w = lower_chars(t.as_slice());
    chars_equal_str(w.as_slice(), "y") || chars_equal_str(w.as_slice(), "yes")
}

/// The PowerShell command that removes one file that was in use.
pub open spec fn removal_command(path: Seq<char>) -> Seq<char> {
    "Remove-Item -Force -LiteralPath '"@ + ps_escaped(path) + "' -ErrorAction SilentlyContinue"@
}

/// The PowerShell command that removes one file that was in use, once the client has exited.
pub fn file_removal_command(path: &str) -> (s: String)
    ensures
        s@ == removal_command(path@),
{
    let mut s = "Remove-Item -Force -LiteralPath '".to_owned();
    let e = escape_powershell_single_quoted(path);
    push_str(&mut s, e.as_str());
    push_str(&mut s, "' -ErrorAction SilentlyContinue");
    s
}

/// The removal commands of `paths`, joined with `; `.
pub open spec fn removal_commands(paths: Seq<Seq<char>>) -> Seq<char>
    decreases paths.len(),
{
    if paths.len() == 0 {
        seq![]
    } else if paths.len() == 1 {
        removal_command(paths[0])
    } else {
        removal_commands(paths.drop_last()) + "; "@ + removal_command(paths.last())
    }
}

/// The PowerShell command that removes a directory and all it holds.
pub open spec fn directory_removal_command(path: Seq<char>) -> Seq<char> {
    "Remove-Item -Recurse -Force -LiteralPath '"@ + ps_escaped(path) + "' -ErrorAction SilentlyContinue"@
}

/// The script left to run once the client has exited: wait three seconds, then remove the
/// files that were in use, the install directory and the configuration directory.
pub open spec fn spec_cleanup_script(pending: Seq<Seq<char>>, install_dir: Seq<char>, config_dir: Seq<char>) -> Seq<char> {
    "$ErrorActionPreference='SilentlyContinue'; Start-Sleep -Seconds 3; "@ + removal_commands(pending) + "; "@
        + directory_removal_command(install_dir) + "; "@ + directory_removal_command(config_dir)
}

fn push_directory_removal(s: &mut String, path: &str)
    ensures
        final(s)@ == old(s)@ + directory_removal_command(path@),
{
    push_str(s, "Remove-Item -Recurse -Force -LiteralPath '");
    let e = escape_powershell_single_quoted(path);
    push_str(s, e.as_str());
    push_str(s, "' -ErrorAction SilentlyContinue");
    assert(final(s)@ =~= old(s)@ + directory_removal_command(path@));
}

/// The cleanup script for the files `pending` that were in use and the two directories.
pub fn cleanup_script(pending: &Vec<String>, install_dir: &str, config_dir: &str) -> (s: String)
    ensures
        s@ == spec_cleanup_script(pending@.map_values(|p: String| p@), install_dir@, config_dir@),
{
    let ghost paths = pending@.map_values(|p: String| p@);
    let mut s = "$ErrorActionPreference='SilentlyContinue'; Start-Sleep -Seconds 3; ".to_owned();
    let ghost head = s@;
    let mut i: usize = 0;
    while i < pending.len()
        invariant
            i <= pending@.len(),
            paths == pending@.map_values(|p: String| p@),
            s@ == head + removal_commands(paths.take(i as int)),
        decreases pending@.len() - i,
    {
        assert(paths.take(i + 1).drop_last() =~= paths.take(i as int));
        assert(paths.take(i + 1).last() == pending@[i as int]@);
        if i > 0 {
            push_str(&mut s, "; ");
        }
        let c = file_removal_command(pending[i].as_str());
        push_str(&mut s, c.as_str());
        proof {
            if i == 0 {
                assert(paths.take(1) =~= seq![paths[0]]);
                assert(removal_commands(paths.take(0)) =~= Seq::<char>::empty());
                assert(s@ =~= head + removal_commands(paths.take(1)));
            } else {
                assert(s@ =~= head + removal_commands(paths.take(i + 1)));
            }
        }
        i = i + 1;
    }
    assert(paths.take(i as int) =~= paths);
    push_str(&mut s, "; ");
    push_directory_removal(&mut s, install_dir);
    push_str(&mut s, "; ");
    push_directory_removal(&mut s, config_dir);
    assert(s@ =~= spec_cleanup_script(paths, install_dir@, config_dir@));
    s
}

} // verus!
