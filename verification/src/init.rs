//! The script that sets a shell up.

use crate::args::Shell;
use crate::text::{from_chars, to_chars};
use vstd::prelude::*;

verus! {

/// The place in a script where the query command goes.
pub open spec fn placeholder() -> Seq<char> {
    "{query_command}"@
}

/// The command with which the script asks for a directory. With
/// `exclude_old_pwd` it names the previous directory as the path to leave
/// out.
pub open spec fn query_command(shell: Shell, exclude_old_pwd: bool) -> Seq<char> {
    match shell {
        Shell::Fish => if exclude_old_pwd {
            "_kn query --exclude \"$dirprev[-1]\" --abbr \"$argv\""@
        } else {
            "_kn query --abbr \"$argv\""@
        },
        Shell::Zsh => if exclude_old_pwd {
            "_kn query --exclude \"${OLDPWD}\" --abbr \"$@\""@
        } else {
            "_kn query --abbr \"$@\""@
        },
        Shell::Bash => if exclude_old_pwd {
            "_kn query --exclude \"${OLDPWD}\" --abbr \"$@\""@
        } else {
            "_kn query --abbr \"$@\""@
        },
    }
}

/// A script with the query command filled in: every placeholder becomes the
/// command, `{{` becomes `{` and `}}` becomes `}`; everything else stays.
pub open spec fn rendered(script: Seq<char>, command: Seq<char>) -> Seq<char>
    decreases script.len(),
{
    if script.len() == 0 {
        Seq::empty()
    } else if seq!['{', '{'].is_prefix_of(script) {
        seq!['{'] + rendered(script.skip(2), command)
    } else if seq!['}', '}'].is_prefix_of(script) {
        seq!['}'] + rendered(script.skip(2), command)
    } else if placeholder().len() > 0 && placeholder().is_prefix_of(script) {
        command + rendered(script.skip(placeholder().len() as int), command)
    } else {
        seq![script[0]] + rendered(script.skip(1), command)
    }
}

/// Whether `pattern` stands in `text` at position `at`.
fn stands_at(text: &Vec<char>, at: usize, pattern: &Vec<char>) -> (r: bool)
    requires
        at <= text.len(),
    ensures
        r == pattern@.is_prefix_of(text@.skip(at as int)),
{
    if pattern.len() > text.len() - at {
        return false;
    }
    let mut k: usize = 0;
    while k < pattern.len()
        invariant
            k <= pattern.len(),
            at + pattern.len() <= text.len(),
            forall|j: int| 0 <= j < k ==> pattern@[j] == text@[at + j],
        decreases pattern.len() - k,
    {
        if pattern[k] != text[at + k] {
            assert(text@.skip(at as int)[k as int] == text@[at + k]);
            return false;
        }
        k += 1;
    }
    assert(pattern@ =~= text@.skip(at as int).subrange(0, pattern@.len() as int));
    true
}

/// The query command of a shell.
pub fn command_for(shell: Shell, exclude_old_pwd: bool) -> (r: &'static str)
    ensures
        r@ == query_command(shell, exclude_old_pwd),
{
    match shell {
        Shell::Fish => if exclude_old_pwd {
            "_kn query --exclude \"$dirprev[-1]\" --abbr \"$argv\""
        } else {
            "_kn query --abbr \"$argv\""
        },
        Shell::Zsh => if exclude_old_pwd {
            "_kn query --exclude \"${OLDPWD}\" --abbr \"$@\""
        } else {
            "_kn query --abbr \"$@\""
        },
        Shell::Bash => if exclude_old_pwd {
            "_kn query --exclude \"${OLDPWD}\" --abbr \"$@\""
        } else {
            "_kn query --abbr \"$@\""
        },
    }
}

/// Fills the query command into a script.
pub fn render(script: &str, command: &str) -> (r: String)
    ensures
        r@ == rendered(script@, command@),
{
    let text = to_chars(script);
    let filling = to_chars(command);
    let open: Vec<char> = vec!['{', '{'];
    let close: Vec<char> = vec!['}', '}'];
    let place = to_chars("{query_command}");
    assert(open@ =~= seq!['{', '{']);
    assert(close@ =~= seq!['}', '}']);
    let mut out: Vec<char> = Vec::new();
    let mut i: usize = 0;
    assert(text@.skip(0) =~= text@);
    assert(out@ + rendered(text@.skip(0), filling@) =~= rendered(text@, filling@));
    while i < text.len()
        invariant
            i <= text.len(),
            open@ == seq!['{', '{'],
            close@ == seq!['}', '}'],
            place@ == placeholder(),
            out@ + rendered(text@.skip(i as int), filling@) == rendered(text@, filling@),
        decreases text.len() - i,
    {
        let ghost rest = text@.skip(i as int);
        let ghost before = out@;
        if stands_at(&text, i, &open) {
            out.push('{');
            assert(rest.skip(2) =~= text@.skip(i + 2));
            assert(out@ + rendered(text@.skip(i + 2), filling@) =~= before + (seq!['{']
                + rendered(rest.skip(2), filling@)));
            i += 2;
        } else if stands_at(&text, i, &close) {
            out.push('}');
            assert(rest.skip(2) =~= text@.skip(i + 2));
            assert(out@ + rendered(text@.skip(i + 2), filling@) =~= before + (seq!['}']
                + rendered(rest.skip(2), filling@)));
            i += 2;
        } else if place.len() > 0 && stands_at(&text, i, &place) {
            let mut k: usize = 0;
            while k < filling.len()
                invariant
                    k <= filling.len(),
                    out@ == before + filling@.take(k as int),
                decreases filling.len() - k,
            {
                out.push(filling[k]);
                assert(out@ =~= before + filling@.take(k + 1));
                k += 1;
            }
            assert(filling@.take(filling.len() as int) =~= filling@);
            assert(rest.skip(place.len() as int) =~= text@.skip(i + place.len()));
            assert(out@ + rendered(text@.skip(i + place.len()), filling@) =~= before + (filling@
                + rendered(rest.skip(place.len() as int), filling@)));
            i += place.len();
        } else {
            out.push(text[i]);
            assert(rest.skip(1) =~= text@.skip(i + 1));
            assert(out@ + rendered(text@.skip(i + 1), filling@) =~= before + (seq![rest[0]]
                + rendered(rest.skip(1), filling@)));
            i += 1;
        }
    }
    assert(rendered(text@.skip(i as int), filling@) =~= Seq::<char>::empty());
    assert(out@ + Seq::<char>::empty() =~= out@);
    from_chars(&out)
}

/// The script that sets up `shell`: the given script of that shell with
/// the query command filled in. With `exclude_old_pwd` the previous
/// directory is left out of the search where other directories match.
pub fn init(shell: Shell, exclude_old_pwd: bool, script: &str) -> (r: String)
    ensures
        r@ == rendered(script@, query_command(shell, exclude_old_pwd)),
{
    render(script, command_for(shell, exclude_old_pwd))
}

} // verus!
