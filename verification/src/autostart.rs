//! Starting with Windows: the PowerShell script that creates the start-up
//! folder shortcut.

use vstd::prelude::*;
use crate::text::{push_char, push_str};

verus! {

/// A string quoted for a single-quoted PowerShell literal: each `'` is
/// doubled.
pub open spec fn ps_quote_spec(s: Seq<char>) -> Seq<char>
    decreases s.len(),
{
    if s.len() == 0 {
        seq![]
    } else {
        ps_quote_spec(s.drop_last()) + if s.last() == '\'' { seq!['\'', '\''] } else { seq![s.last()] }
    }
}

/// `s` with every `'` doubled, for use inside a single-quoted PowerShell
/// string.
pub fn ps_quote(s: &str) -> (r: String)
    ensures
        r@ == ps_quote_spec(s@),
{
    let mut out = String::new();
    for c in it: s.chars()
        invariant
            it.seq() == s@,
            out@ == ps_quote_spec(s@.take(it.index() as int)),
    {
        let ghost before = out@;
        if c == '\'' {
            push_char(&mut out, '\'');
            push_char(&mut out, '\'');
        } else {
            push_char(&mut out, c);
        }
        proof {
            let t = s@.take(it.index() + 1);
            assert(t.drop_last() =~= s@.take(it.index() as int));
            assert(t.last() == c);
            assert(out@ =~= ps_quote_spec(t));
        }
    }
    proof {
        assert(s@.take(s@.len() as int) =~= s@);
    }
    out
}

/// The PowerShell script that creates the start-up shortcut `lnk` to the
/// program `target`, started in `dir`.
pub open spec fn shortcut_script_spec(lnk: Seq<char>, target: Seq<char>, dir: Seq<char>) -> Seq<char> {
    "$ws = New-Object -ComObject WScript.Shell; $lnk = $ws.CreateShortcut('"@ + ps_quote_spec(lnk)
        + "'); $lnk.TargetPath = '"@ + ps_quote_spec(target) + "'; $lnk.WorkingDirectory = '"@
        + ps_quote_spec(dir) + "'; $lnk.Save()"@
}

/// The PowerShell script creating the start-up shortcut `lnk` that starts
/// `target` in the directory `dir` (each path quoted with `ps_quote`).
pub fn shortcut_script(lnk: &str, target: &str, dir: &str) -> (r: String)
    ensures
        r@ == shortcut_script_spec(lnk@, target@, dir@),
{
    let mut out = String::new();
    push_str(&mut out, "$ws = New-Object -ComObject WScript.Shell; $lnk = $ws.CreateShortcut('");
    let q = ps_quote(lnk);
    push_str(&mut out, q.as_str());
    push_str(&mut out, "'); $lnk.TargetPath = '");
    let q = ps_quote(target);
    push_str(&mut out, q.as_str());
    push_str(&mut out, "'; $lnk.WorkingDirectory = '");
    let q = ps_quote(dir);
    push_str(&mut out, q.as_str());
    push_str(&mut out, "'; $lnk.Save()");
    proof {
        reveal_strlit("");
        assert(out@ =~= shortcut_script_spec(lnk@, target@, dir@));
    }
    out
}

} // verus!
