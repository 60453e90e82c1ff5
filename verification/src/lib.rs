//! ldpsc turns a list of C function prototypes into C source code for
//! interceptor functions usable in a preloaded shared library.
//!
//! The core is a verified parser for a restricted subset of C declarations
//! and a verified generator that renders each parsed declaration into an
//! interceptor definition. Reading input, writing output, compiling the
//! result and launching a target command are left to the program around
//! this library.

use vstd::prelude::*;
use vstd::string::{StrSliceExecFns, StringExecFns};

pub mod ast;
pub mod basic;
pub mod laws;
pub mod parser;
pub mod render;
pub mod round_trip;

use crate::ast::{Function, FunctionView};
use crate::basic::{ErrorKind, ParseError};
use crate::parser::{parse_program, parse_program_at};
use crate::render::definition_text;

verus! {

/// The fixed directives that head every output: the feature-test define,
/// the dynamic-linking header and the standard I/O header.
pub open spec fn header_text() -> Seq<char> {
    "#define _GNU_SOURCE\n"@ + "#include<dlfcn.h>\n"@ + "#include<stdio.h>\n"@
}

/// The generated definitions in source order, each preceded by one blank
/// line.
pub open spec fn definitions_text(fs: Seq<FunctionView>, dbg: Seq<char>) -> Seq<char>
    decreases fs.len(),
{
    if fs.len() == 0 {
        Seq::<char>::empty()
    } else {
        "\n"@ + definition_text(fs[0], dbg) + definitions_text(fs.drop_first(), dbg)
    }
}

/// The whole output text for a parsed declaration list.
pub open spec fn output_text(fs: Seq<FunctionView>, dbg: Seq<char>) -> Seq<char> {
    header_text() + definitions_text(fs, dbg)
}

/// The character for one decimal digit.
pub open spec fn decimal_digit(n: nat) -> char {
    if n == 0 {
        '0'
    } else if n == 1 {
        '1'
    } else if n == 2 {
        '2'
    } else if n == 3 {
        '3'
    } else if n == 4 {
        '4'
    } else if n == 5 {
        '5'
    } else if n == 6 {
        '6'
    } else if n == 7 {
        '7'
    } else if n == 8 {
        '8'
    } else {
        '9'
    }
}

/// `n` written in decimal, without leading zeros.
pub open spec fn decimal_text(n: nat) -> Seq<char>
    decreases n,
{
    if n < 10 {
        seq![decimal_digit(n)]
    } else {
        decimal_text(n / 10).push(decimal_digit(n % 10))
    }
}

/// The description of an error kind.
pub open spec fn kind_text(k: ErrorKind) -> Seq<char> {
    match k {
        ErrorKind::Lexical => "unexpected character"@,
        ErrorKind::Type => "unknown type specifier"@,
        ErrorKind::Syntax => "unexpected token"@,
        ErrorKind::Incomplete => "unexpected end of input"@,
    }
}

/// The message surfaced for a failed transformation.
pub open spec fn error_text(e: ParseError) -> Seq<char> {
    "Parser error: "@ + kind_text(e.kind) + " at offset "@ + decimal_text(e.offset as nat)
}

/// One decimal digit as text.
fn decimal_digit_str(n: usize) -> (r: &'static str)
    requires
        n < 10,
    ensures
        r@ == seq![decimal_digit(n as nat)],
{
    let r: &'static str = if n == 0 {
        "0"
    } else if n == 1 {
        "1"
    } else if n == 2 {
        "2"
    } else if n == 3 {
        "3"
    } else if n == 4 {
        "4"
    } else if n == 5 {
        "5"
    } else if n == 6 {
        "6"
    } else if n == 7 {
        "7"
    } else if n == 8 {
        "8"
    } else {
        "9"
    };
    proof {
        reveal_strlit("0");
        reveal_strlit("1");
        reveal_strlit("2");
        reveal_strlit("3");
        reveal_strlit("4");
        reveal_strlit("5");
        reveal_strlit("6");
        reveal_strlit("7");
        reveal_strlit("8");
        reveal_strlit("9");
        assert(r@ =~= seq![decimal_digit(n as nat)]);
    }
    r
}

/// Writes `n` in decimal.
fn decimal_string(n: usize) -> (r: String)
    ensures
        r@ == decimal_text(n as nat),
    decreases n,
{
    if n < 10 {
        String::from_str(decimal_digit_str(n))
    } else {
        let mut s = decimal_string(n / 10);
        s.append(decimal_digit_str(n % 10));
        proof {
            assert(s@ =~= decimal_text(n as nat));
        }
        s
    }
}

/// Builds the message surfaced for a failed transformation.
fn error_message(e: ParseError) -> (r: String)
    ensures
        r@ == error_text(e),
{
    let mut s = String::from_str("Parser error: ");
    let k: &'static str = match e.kind {
        ErrorKind::Lexical => "unexpected character",
        ErrorKind::Type => "unknown type specifier",
        ErrorKind::Syntax => "unexpected token",
        ErrorKind::Incomplete => "unexpected end of input",
    };
    s.append(k);
    s.append(" at offset ");
    let off = decimal_string(e.offset);
    s.append(off.as_str());
    proof {
        assert(s@ =~= error_text(e));
    }
    s
}

/// Appends the definitions generated for `v` from index `i` on, each
/// preceded by one blank line.
fn write_definitions_from(v: &Vec<Function>, i: usize, dbg: &str, out: &mut String)
    requires
        i <= v@.len(),
    ensures
        final(out)@ == old(out)@ + definitions_text(
            v@.map_values(|f: Function| f@).skip(i as int),
            dbg@,
        ),
    decreases v@.len() - i,
{
    if i < v.len() {
        out.append("\n");
        v[i].get_definition(out, dbg);
        write_definitions_from(v, i + 1, dbg, out);
        proof {
            let fs = v@.map_values(|f: Function| f@);
            assert(fs.skip(i as int).drop_first() =~= fs.skip(i as int + 1));
            assert(out@ =~= old(out)@ + definitions_text(fs.skip(i as int), dbg@));
        }
    } else {
        proof {
            let fs = v@.map_values(|f: Function| f@);
            assert(out@ =~= old(out)@ + definitions_text(fs.skip(i as int), dbg@));
        }
    }
}

/// Transforms a file from the source form to its final form: parses every
/// declaration and renders the output text, or surfaces exactly one error
/// with no output.
pub fn transform_file(content: &str, config: &Config) -> (r: Result<String, String>)
    ensures
        match parse_program(content@, 0) {
            Ok(fs) => r matches Ok(out) && out@ == output_text(fs, config.debug_output@),
            Err(e) => r matches Err(msg) && msg@ == error_text(e),
        },
{
    let functions = match parse_program_at(content) {
        Ok(fs) => fs,
        Err(e) => {
            return Err(error_message(e));
        },
    };
    let mut output = String::new();
    output.append("#define _GNU_SOURCE\n");
    output.append("#include<dlfcn.h>\n");
    output.append("#include<stdio.h>\n");
    proof {
        assert(functions@.map_values(|f: Function| f@).skip(0) =~= functions@.map_values(
            |f: Function| f@,
        ));
    }
    write_definitions_from(&functions, 0, config.debug_output.as_str(), &mut output);
    proof {
        assert(output@ =~= output_text(
            functions@.map_values(|f: Function| f@),
            config.debug_output@,
        ));
    }
    Ok(output)
}

/// Represents a configuration for the program.
#[derive(Debug)]
pub struct Config {
    /// The file to read the input from. - for stdin.
    pub input_file: String,
    /// The file to write the output to. - for stdout.
    pub output_file: String,
    /// Whether to stop after changing the C code.
    pub output_to_c: bool,
    /// The file to use for debug output. - for stderr.
    pub debug_output: String,
    /// The C compiler to use.
    pub c_compiler: String,
    /// Whether to stop after creating the shared object file.
    pub create_shared_object: bool,
    /// The command to run.
    pub command: Option<Vec<String>>,
}

} // verus!
