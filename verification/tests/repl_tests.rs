use kingcobra::object::Object;
use kingcobra::repl::{repl_shown, repl_step, ReplStep};
use kingcobra::text::trim_text;

#[test]
fn repl_line_decisions() {
    assert_eq!(repl_step("exit\n"), ReplStep::Quit);
    assert_eq!(repl_step("  exit  "), ReplStep::Quit);
    assert_eq!(repl_step("   \n"), ReplStep::Skip);
    assert_eq!(repl_step(") + 1\n"), ReplStep::Fatal);
    match repl_step("let x 5\n") {
        ReplStep::Report(errors) => assert_eq!(errors, vec!["Error at line 1, col 7: Expected '=', got Int(5)".to_string()]),
        other => panic!("unexpected {:?}", other),
    }
    match repl_step("1 + 2\n") {
        ReplStep::Run(p) => assert_eq!(p.statements.len(), 1),
        other => panic!("unexpected {:?}", other),
    }
    // only the whole word ends the session
    assert!(matches!(repl_step("exits"), ReplStep::Run(_)));
}

#[test]
fn repl_shows_all_but_null() {
    assert_eq!(repl_shown(&Object::Null), None);
    assert_eq!(repl_shown(&Object::Integer(3)), Some("3".to_string()));
    assert_eq!(repl_shown(&Object::Error("bad".to_string())), Some("ERROR: bad".to_string()));
}

#[test]
fn trimming_removes_exactly_the_unicode_whitespace() {
    assert_eq!(trim_text("\u{3000}\t exit \u{85}\u{2029}"), "exit");
    assert_eq!(trim_text("\u{200B}x\u{200B}"), "\u{200B}x\u{200B}");
    assert_eq!(trim_text(" a b "), "a b");
    assert_eq!(trim_text("   "), "");
    assert_eq!(repl_step("\u{A0}exit\u{2028}"), ReplStep::Quit);
    for code in 0u32..=0x10FFFF {
        if let Some(c) = char::from_u32(code) {
            let s = format!("{c}{c}x{c}");
            assert_eq!(trim_text(&s), s.trim(), "character {:#x}", code);
        }
    }
}
