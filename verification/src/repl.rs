use vstd::prelude::*;
use crate::ast::{Program, copy_strings, strings_view};
use crate::object::{Object, display};
use crate::parser::{Parser, file_parse};
use crate::lexer::Lexer;
use crate::text::{trimmed, trim_text, chars_of};

verus! {

// ---------------------------------------------------------------------------
// The decisions of the read-eval-print loop, one line at a time. The program around the
// library reads the line, acts on the step, and prints what is shown.
// ---------------------------------------------------------------------------

/// What to do with one line typed at the prompt.
#[derive(Debug, PartialEq)]
pub enum ReplStep {
    /// the line is `exit`: say goodbye and stop
    Quit,
    /// the line is blank: prompt again
    Skip,
    /// the line does not parse: report these errors and prompt again
    Report(Vec<String>),
    /// the line met an infix operator with no expression before it, which is fatal
    Fatal,
    /// run this program in the session's scope
    Run(Program),
}

/// The word that ends a session.
pub open spec fn exit_word() -> Seq<char> {
    seq!['e', 'x', 'i', 't']
}

/// What to do with a line typed at the prompt: the line is taken without the whitespace at
/// either end; `exit` stops, a blank line is skipped, and anything else is parsed.
pub fn repl_step(line: &str) -> (r: ReplStep)
    requires
        line@.len() < usize::MAX,
    ensures
        r is Quit <==> trimmed(line@) == exit_word(),
        r is Skip <==> trimmed(line@).len() == 0,
        trimmed(line@) != exit_word() && trimmed(line@).len() > 0 ==> {
            let (prog, ps) = file_parse(trimmed(line@));
            &&& r is Fatal <==> ps.crashed
            &&& r is Report <==> !ps.crashed && ps.errs.len() > 0
            &&& r matches ReplStep::Report(errs) ==> strings_view(errs@) == ps.errs
            &&& r matches ReplStep::Run(program) ==> program@ == prog
        },
{
    let t = trim_text(line);
    let cs = chars_of(t.as_str());
    if cs.len() == 4 && cs[0] == 'e' && cs[1] == 'x' && cs[2] == 'i' && cs[3] == 't' {
        assert(cs@ =~= exit_word());
        return ReplStep::Quit;
    }
    if cs.len() == 0 {
        return ReplStep::Skip;
    }
    let lexer = Lexer::new(t.as_str());
    let mut parser = Parser::new(lexer);
    let program = parser.parse_program();
    if parser.failed() {
        return ReplStep::Fatal;
    }
    let errors = parser.error_messages();
    if errors.len() > 0 {
        return ReplStep::Report(copy_strings(errors));
    }
    ReplStep::Run(program)
}

/// What the loop prints for the value of a line: nothing for `null`, else the value as it is
/// shown when printed.
pub fn repl_shown(v: &Object) -> (r: Option<String>)
    ensures
        r is None <==> v@ is Null,
        r matches Some(s) ==> s@ == display(v@),
{
    match v {
        Object::Null => None,
        _ => Some(v.to_display_string()),
    }
}

} // verus!
