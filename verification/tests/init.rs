use kn::args::Shell;
use kn::init::{command_for, init, render};

#[test]
fn init_fills_the_query_command_in() {
    let script = "function kn {{\n    cd \"$({query_command})\"\n}}\n";
    assert_eq!(
        init(Shell::Bash, false, script),
        "function kn {\n    cd \"$(_kn query --abbr \"$@\")\"\n}\n"
    );
    assert_eq!(
        init(Shell::Zsh, true, script),
        "function kn {\n    cd \"$(_kn query --exclude \"${OLDPWD}\" --abbr \"$@\")\"\n}\n"
    );
    assert_eq!(
        init(Shell::Fish, true, "{query_command}"),
        "_kn query --exclude \"$dirprev[-1]\" --abbr \"$argv\""
    );
    assert_eq!(init(Shell::Fish, false, "{query_command}"), "_kn query --abbr \"$argv\"");
}

#[test]
fn render_keeps_everything_else() {
    assert_eq!(render("", "x"), "");
    assert_eq!(render("{query_command}{query_command}", "ab"), "abab");
    assert_eq!(render("{{query_command}}", "ab"), "{query_command}");
    assert_eq!(render("{ query_command }", "ab"), "{ query_command }");
    assert_eq!(render("zażółć {", "ab"), "zażółć {");
    assert_eq!(command_for(Shell::Bash, false), command_for(Shell::Zsh, false));
}
