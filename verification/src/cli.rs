//! Command-line argument handling for the `rcc` driver.
//!
//! Usage: `rcc [options] <input.c>` with the options `-c` (compile only),
//! `-o <file>` (output file), `--help`/`-h` and `--version`/`-V`.

use vstd::prelude::*;
use vstd::string::*;

use crate::text::str_eq;

verus! {

/// Options for a compilation run.
pub struct CliOptions {
    pub input: Option<String>,
    pub output: Option<String>,
    pub compile_only: bool,
}

/// What the command line asks the driver to do.
pub enum CliRequest {
    /// Print the usage text and exit successfully.
    Help,
    /// Print the version and exit successfully.
    Version,
    /// Compile with the given options.
    Compile(CliOptions),
}

/// The meaning of a command line, over plain text.
pub enum ArgsOutcome {
    Help,
    Version,
    Compile { input: Option<Seq<char>>, output: Option<Seq<char>>, compile_only: bool },
    Failed(Seq<char>),
}

/// The text of an optional string.
pub open spec fn opt_view(o: Option<String>) -> Option<Seq<char>> {
    match o {
        Some(s) => Some(s@),
        None => None,
    }
}

/// The meaning of a result of `parse_args`.
pub open spec fn outcome_of(r: Result<CliRequest, String>) -> ArgsOutcome {
    match r {
        Ok(CliRequest::Help) => ArgsOutcome::Help,
        Ok(CliRequest::Version) => ArgsOutcome::Version,
        Ok(CliRequest::Compile(o)) => ArgsOutcome::Compile {
            input: opt_view(o.input),
            output: opt_view(o.output),
            compile_only: o.compile_only,
        },
        Err(msg) => ArgsOutcome::Failed(msg@),
    }
}

/// Whether `a` has the form of a flag: it starts with `-`.
pub open spec fn is_flag(a: Seq<char>) -> bool {
    a.len() > 0 && a[0] == '-'
}

/// The meaning of the arguments from position `i` on, given what the
/// arguments before it have set: arguments are read left to right; `--help`
/// and `--version` end the reading at once, `-o` takes the next argument as
/// the output file, any other flag is an error, and a second input file is
/// an error.
pub open spec fn parse_from(
    args: Seq<Seq<char>>,
    i: int,
    input: Option<Seq<char>>,
    output: Option<Seq<char>>,
    compile_only: bool,
) -> ArgsOutcome
    decreases args.len() - i,
{
    if i < 0 || i >= args.len() {
        ArgsOutcome::Compile { input, output, compile_only }
    } else {
        let a = args[i];
        if a == "--help"@ || a == "-h"@ {
            ArgsOutcome::Help
        } else if a == "--version"@ || a == "-V"@ {
            ArgsOutcome::Version
        } else if a == "-c"@ {
            parse_from(args, i + 1, input, output, true)
        } else if a == "-o"@ {
            if i + 1 >= args.len() {
                ArgsOutcome::Failed("-o requires a filename argument"@)
            } else {
                parse_from(args, i + 2, input, Some(args[i + 1]), compile_only)
            }
        } else if is_flag(a) {
            ArgsOutcome::Failed("unknown flag: "@ + a)
        } else if input is Some {
            ArgsOutcome::Failed("unexpected argument: "@ + a)
        } else {
            parse_from(args, i + 1, Some(a), output, compile_only)
        }
    }
}

/// The meaning of a whole command line; the first argument is the program
/// name and is skipped.
pub open spec fn parse_spec(args: Seq<Seq<char>>) -> ArgsOutcome {
    parse_from(args, 1, None, None, false)
}

/// Reading a command line that asks to compile goes on past its end: read
/// with more arguments appended, it gives what the appended arguments give
/// when read from where the command line ended, with the options it set.
proof fn lemma_parse_extends(
    args: Seq<Seq<char>>,
    more: Seq<Seq<char>>,
    i: int,
    input: Option<Seq<char>>,
    output: Option<Seq<char>>,
    compile_only: bool,
)
    requires
        0 <= i <= args.len(),
        parse_from(args, i, input, output, compile_only) is Compile,
    ensures
        parse_from(args + more, i, input, output, compile_only) == match parse_from(
            args,
            i,
            input,
            output,
            compile_only,
        ) {
            ArgsOutcome::Compile { input: i2, output: o2, compile_only: c2 } => parse_from(
                args + more,
                args.len() as int,
                i2,
                o2,
                c2,
            ),
            _ => ArgsOutcome::Help,
        },
    decreases args.len() - i,
{
    if i < args.len() {
        let a = args[i];
        assert((args + more)[i] == a);
        if a == "--help"@ || a == "-h"@ {
        } else if a == "--version"@ || a == "-V"@ {
        } else if a == "-c"@ {
            lemma_parse_extends(args, more, i + 1, input, output, true);
        } else if a == "-o"@ {
            if i + 1 < args.len() {
                assert((args + more)[i + 1] == args[i + 1]);
                lemma_parse_extends(args, more, i + 2, input, Some(args[i + 1]), compile_only);
            }
        } else if is_flag(a) {
        } else if input is Some {
        } else {
            lemma_parse_extends(args, more, i + 1, Some(a), output, compile_only);
        }
    }
}

proof fn lemma_option_words_differ()
    ensures
        "-o"@ != "--help"@,
        "-o"@ != "-h"@,
        "-o"@ != "--version"@,
        "-o"@ != "-V"@,
        "-o"@ != "-c"@,
        "-c"@ != "--help"@,
        "-c"@ != "-h"@,
        "-c"@ != "--version"@,
        "-c"@ != "-V"@,
        "--version"@ != "--help"@,
        "--version"@ != "-h"@,
        "-V"@ != "--help"@,
        "-V"@ != "-h"@,
{
    reveal_strlit("-o");
    reveal_strlit("-c");
    reveal_strlit("-h");
    reveal_strlit("-V");
    reveal_strlit("--help");
    reveal_strlit("--version");
    assert("-o"@[1] != "-h"@[1]);
    assert("-o"@[1] != "-V"@[1]);
    assert("-o"@[1] != "-c"@[1]);
    assert("-c"@[1] != "-h"@[1]);
    assert("-c"@[1] != "-V"@[1]);
    assert("-V"@[1] != "-h"@[1]);
    assert("--version"@.len() != "--help"@.len());
}

/// Options are honoured wherever they stand, also after the input file:
/// appending `-o f` to a command line that asks to compile sets the output
/// file to `f` (whatever `f` is), appending `-c` sets compile-only, and the
/// other options stay as they were.
pub proof fn lemma_options_after_input(
    args: Seq<Seq<char>>,
    f: Seq<char>,
    input: Option<Seq<char>>,
    output: Option<Seq<char>>,
    compile_only: bool,
)
    requires
        args.len() >= 1,
        parse_spec(args) == (ArgsOutcome::Compile { input, output, compile_only }),
    ensures
        parse_spec(args + seq!["-o"@, f]) == (ArgsOutcome::Compile {
            input,
            output: Some(f),
            compile_only,
        }),
        parse_spec(args.push("-c"@)) == (ArgsOutcome::Compile {
            input,
            output,
            compile_only: true,
        }),
{
    lemma_option_words_differ();
    let n = args.len() as int;
    let with_o = args + seq!["-o"@, f];
    lemma_parse_extends(args, seq!["-o"@, f], 1, None, None, false);
    assert(with_o[n] == "-o"@);
    assert(with_o[n + 1] == f);
    assert(parse_from(with_o, n + 2, input, Some(f), compile_only) == (ArgsOutcome::Compile {
        input,
        output: Some(f),
        compile_only,
    }));
    let with_c = args.push("-c"@);
    assert(with_c =~= args + seq!["-c"@]);
    lemma_parse_extends(args, seq!["-c"@], 1, None, None, false);
    assert(with_c[n] == "-c"@);
    assert(parse_from(with_c, n + 1, input, output, true) == (ArgsOutcome::Compile {
        input,
        output,
        compile_only: true,
    }));
}

/// Once reading has asked for help or the version, or has failed on an
/// argument that it had read, what follows is not read.
proof fn lemma_parse_stops(
    args: Seq<Seq<char>>,
    more: Seq<Seq<char>>,
    i: int,
    input: Option<Seq<char>>,
    output: Option<Seq<char>>,
    compile_only: bool,
)
    requires
        0 <= i <= args.len(),
        !(parse_from(args, i, input, output, compile_only) is Compile),
        parse_from(args, i, input, output, compile_only) != ArgsOutcome::Failed(
            "-o requires a filename argument"@,
        ),
    ensures
        parse_from(args + more, i, input, output, compile_only) == parse_from(
            args,
            i,
            input,
            output,
            compile_only,
        ),
    decreases args.len() - i,
{
    if i < args.len() {
        let a = args[i];
        assert((args + more)[i] == a);
        if a == "--help"@ || a == "-h"@ {
        } else if a == "--version"@ || a == "-V"@ {
        } else if a == "-c"@ {
            lemma_parse_stops(args, more, i + 1, input, output, true);
        } else if a == "-o"@ {
            assert(i + 1 < args.len());
            assert((args + more)[i + 1] == args[i + 1]);
            lemma_parse_stops(args, more, i + 2, input, Some(args[i + 1]), compile_only);
        } else if is_flag(a) {
        } else if input is Some {
        } else {
            lemma_parse_stops(args, more, i + 1, Some(a), output, compile_only);
        }
    }
}

/// The program name alone, whatever it is, asks to compile with no input
/// file, no output file and compile-only off.
pub proof fn lemma_program_name_alone(program: Seq<char>)
    ensures
        parse_spec(seq![program]) == (ArgsOutcome::Compile {
            input: None,
            output: None,
            compile_only: false,
        }),
{
}

/// What one more argument does to a command line that asks to compile:
/// `--help` or `-h` asks for help, `--version` or `-V` for the version,
/// `-c` sets compile-only, `-o` with nothing after it is refused, any other
/// argument starting with `-` is refused as an unknown flag, and any other
/// argument becomes the input file if there is none yet and is refused as
/// unexpected otherwise.
pub proof fn lemma_append_argument(
    args: Seq<Seq<char>>,
    a: Seq<char>,
    input: Option<Seq<char>>,
    output: Option<Seq<char>>,
    compile_only: bool,
)
    requires
        args.len() >= 1,
        parse_spec(args) == (ArgsOutcome::Compile { input, output, compile_only }),
    ensures
        (a == "--help"@ || a == "-h"@) ==> parse_spec(args.push(a)) == ArgsOutcome::Help,
        (a == "--version"@ || a == "-V"@) ==> parse_spec(args.push(a)) == ArgsOutcome::Version,
        a == "-c"@ ==> parse_spec(args.push(a)) == (ArgsOutcome::Compile {
            input,
            output,
            compile_only: true,
        }),
        a == "-o"@ ==> parse_spec(args.push(a)) == ArgsOutcome::Failed(
            "-o requires a filename argument"@,
        ),
        (a.len() > 0 && a[0] == '-' && a != "--help"@ && a != "-h"@ && a != "--version"@ && a
            != "-V"@ && a != "-c"@ && a != "-o"@) ==> parse_spec(args.push(a))
            == ArgsOutcome::Failed("unknown flag: "@ + a),
        (!(a.len() > 0 && a[0] == '-') && input is None) ==> parse_spec(args.push(a)) == (
        ArgsOutcome::Compile { input: Some(a), output, compile_only }),
        (!(a.len() > 0 && a[0] == '-') && input is Some) ==> parse_spec(args.push(a))
            == ArgsOutcome::Failed("unexpected argument: "@ + a),
{
    reveal_strlit("-o");
    reveal_strlit("-c");
    reveal_strlit("-h");
    reveal_strlit("-V");
    reveal_strlit("--help");
    reveal_strlit("--version");
    lemma_option_words_differ();
    let n = args.len() as int;
    let longer = args.push(a);
    assert(longer =~= args + seq![a]);
    lemma_parse_extends(args, seq![a], 1, None, None, false);
    assert(longer[n] == a);
    assert(parse_from(longer, n + 1, input, output, true) == (ArgsOutcome::Compile {
        input,
        output,
        compile_only: true,
    }));
    assert(parse_from(longer, n + 1, Some(a), output, compile_only) == (ArgsOutcome::Compile {
        input: Some(a),
        output,
        compile_only,
    }));
}

/// A command line that asks for help or the version, or that is refused
/// for any reason but a missing `-o` file name at its end, keeps that
/// meaning whatever arguments are appended to it.
pub proof fn lemma_rest_ignored(args: Seq<Seq<char>>, more: Seq<Seq<char>>)
    requires
        args.len() >= 1,
        !(parse_spec(args) is Compile),
        parse_spec(args) != ArgsOutcome::Failed("-o requires a filename argument"@),
    ensures
        parse_spec(args + more) == parse_spec(args),
{
    lemma_parse_stops(args, more, 1, None, None, false);
}

/// The texts of a list of strings.
pub open spec fn args_view(args: Seq<String>) -> Seq<Seq<char>> {
    args.map_values(|s: String| s@)
}

fn clone_string(s: &String) -> (r: String)
    ensures
        r@ == s@,
{
    s.clone()
}

/// Parse the command line (`args[0]` is the program name).
pub fn parse_args(args: &[String]) -> (r: Result<CliRequest, String>)
    ensures
        outcome_of(r) == parse_spec(args_view(args@)),
{
    let ghost view = args_view(args@);
    let mut input: Option<String> = None;
    let mut output: Option<String> = None;
    let mut compile_only = false;
    let mut i: usize = 1;
    while i < args.len()
        invariant
            view == args_view(args@),
            view.len() == args@.len(),
            1 <= i,
            parse_spec(view) == parse_from(
                view,
                i as int,
                opt_view(input),
                opt_view(output),
                compile_only,
            ),
        decreases args@.len() - i,
    {
        let a = args[i].as_str();
        assert(view[i as int] == a@);
        if str_eq(a, "--help") || str_eq(a, "-h") {
            return Ok(CliRequest::Help);
        } else if str_eq(a, "--version") || str_eq(a, "-V") {
            return Ok(CliRequest::Version);
        } else if str_eq(a, "-c") {
            compile_only = true;
        } else if str_eq(a, "-o") {
            i = i + 1;
            if i >= args.len() {
                return Err(String::from_str("-o requires a filename argument"));
            }
            assert(view[i as int] == args@[i as int]@);
            output = Some(clone_string(&args[i]));
        } else if !a.is_empty() && a.get_char(0) == '-' {
            let mut msg = String::from_str("unknown flag: ");
            msg.append(a);
            return Err(msg);
        } else {
            if input.is_some() {
                let mut msg = String::from_str("unexpected argument: ");
                msg.append(a);
                return Err(msg);
            }
            input = Some(String::from_str(a));
        }
        i = i + 1;
    }
    Ok(CliRequest::Compile(CliOptions { input, output, compile_only }))
}

} // verus!
