//! The code generator: renders each declaration into an interceptor
//! definition. Every piece of emitted text is specified by a spec-level
//! text function over the views of the data model.

use vstd::prelude::*;
use vstd::string::{StrSliceExecFns, StringExecFns};
use crate::ast::{Function, FunctionView, Type, TypeQualifier, TypeView};

verus! {

/// The keyword for a qualifier.
pub open spec fn qualifier_text(q: TypeQualifier) -> Seq<char> {
    match q {
        TypeQualifier::Const => "const"@,
        TypeQualifier::Restrict => "restrict"@,
        TypeQualifier::Volatile => "volatile"@,
        TypeQualifier::Atomic => "_Atomic"@,
    }
}

/// The rendered qualifier list: each qualifier followed by one space.
pub open spec fn qualifiers_text(qs: Seq<TypeQualifier>) -> Seq<char>
    decreases qs.len(),
{
    if qs.len() == 0 {
        Seq::<char>::empty()
    } else {
        qualifier_text(qs[0]) + " "@ + qualifiers_text(qs.drop_first())
    }
}

/// `n` pointer stars.
pub open spec fn stars_text(n: nat) -> Seq<char>
    decreases n,
{
    if n == 0 {
        Seq::<char>::empty()
    } else {
        "*"@ + stars_text((n - 1) as nat)
    }
}

/// A type rendered back to C text: qualifiers in original order, the
/// specifier, and, after one space, the pointer stars.
pub open spec fn type_text(t: TypeView) -> Seq<char> {
    qualifiers_text(t.qualifiers) + t.specifier + (if t.pointer > 0 {
        " "@ + stars_text(t.pointer)
    } else {
        Seq::<char>::empty()
    })
}

/// One rendered parameter: its type, a space when there are no stars,
/// and its name.
pub open spec fn parameter_text(p: (TypeView, Seq<char>)) -> Seq<char> {
    parameter_type_gap(p.0) + p.1
}

/// The text before a name that follows a type: the type and, when the type
/// has no pointer stars, one separating space.
pub open spec fn parameter_type_gap(t: TypeView) -> Seq<char> {
    type_text(t) + (if t.pointer == 0 {
        " "@
    } else {
        Seq::<char>::empty()
    })
}

/// The rendered parameter list, comma-separated.
pub open spec fn parameters_text(ps: Seq<(TypeView, Seq<char>)>) -> Seq<char>
    decreases ps.len(),
{
    if ps.len() == 0 {
        Seq::<char>::empty()
    } else if ps.len() == 1 {
        parameter_text(ps[0])
    } else {
        parameter_text(ps[0]) + ", "@ + parameters_text(ps.drop_first())
    }
}

/// The rendered signature: return type, the function's name (or the
/// trampoline function-pointer form of it), and the parameter list.
pub open spec fn signature_text(f: FunctionView, as_pointer: bool) -> Seq<char> {
    parameter_type_gap(f.return_type) + (if as_pointer {
        "(*original_"@ + f.name + ")("@
    } else {
        f.name + "("@
    }) + parameters_text(f.parameters) + ")"@
}

/// Whether a type is the void type with no pointer stars.
pub open spec fn is_void_type(t: TypeView) -> bool {
    t.specifier == "void"@ && t.pointer == 0
}

/// The format token for a type, keyed by specifier and pointer depth.
pub open spec fn format_specifier_text(t: TypeView) -> Seq<char> {
    if t.specifier == "char"@ && t.pointer == 1 {
        "\\\"%s\\\""@
    } else if t.specifier == "int"@ && t.pointer == 0 {
        "%d"@
    } else if t.specifier == "size_t"@ && t.pointer == 0 {
        "%zd"@
    } else if t.pointer == 0 {
        "{Unknown Type: %d}"@
    } else {
        "%p"@
    }
}

/// The comma-separated format tokens of the parameters.
pub open spec fn parameter_formats_text(ps: Seq<(TypeView, Seq<char>)>) -> Seq<char>
    decreases ps.len(),
{
    if ps.len() == 0 {
        Seq::<char>::empty()
    } else if ps.len() == 1 {
        format_specifier_text(ps[0].0)
    } else {
        format_specifier_text(ps[0].0) + ", "@ + parameter_formats_text(ps.drop_first())
    }
}

/// The contents of the log format string: the function's name, the
/// parameter tokens in parentheses, and, for a non-void return type,
/// an equals clause with the return value's token.
pub open spec fn format_string_text(f: FunctionView) -> Seq<char> {
    f.name + "("@ + parameter_formats_text(f.parameters) + ")"@ + (if is_void_type(
        f.return_type,
    ) {
        Seq::<char>::empty()
    } else {
        " = "@ + format_specifier_text(f.return_type)
    }) + "\\n"@
}

/// The comma-separated parameter names of the forwarding call.
pub open spec fn call_arguments_text(ps: Seq<(TypeView, Seq<char>)>) -> Seq<char>
    decreases ps.len(),
{
    if ps.len() == 0 {
        Seq::<char>::empty()
    } else if ps.len() == 1 {
        ps[0].1
    } else {
        ps[0].1 + ", "@ + call_arguments_text(ps.drop_first())
    }
}

/// The trailing arguments of the log call: each parameter name preceded
/// by a comma.
pub open spec fn log_arguments_text(ps: Seq<(TypeView, Seq<char>)>) -> Seq<char>
    decreases ps.len(),
{
    if ps.len() == 0 {
        Seq::<char>::empty()
    } else {
        ", "@ + ps[0].1 + log_arguments_text(ps.drop_first())
    }
}

/// The line acquiring the output stream: the sentinel `-` reuses the
/// process's standard error, any other destination is opened in append
/// mode for this one call.
pub open spec fn output_stream_text(dbg: Seq<char>) -> Seq<char> {
    if dbg == "-"@ {
        "    FILE *output = stderr;\n"@
    } else {
        "    FILE *output = fopen(\""@ + dbg + "\", \"a\");\n"@
    }
}

/// The declaration of the captured result, empty for a void return type.
pub open spec fn result_binding_text(t: TypeView) -> Seq<char> {
    if is_void_type(t) {
        Seq::<char>::empty()
    } else {
        parameter_type_gap(t) + "result = "@
    }
}

/// The line resolving the real implementation into the trampoline variable.
pub open spec fn lookup_line_text(f: FunctionView) -> Seq<char> {
    "    "@ + signature_text(f, true) + " = dlsym(RTLD_NEXT, \""@ + f.name + "\");\n"@
}

/// The line forwarding the call, capturing the result unless the return
/// type is void.
pub open spec fn forward_line_text(f: FunctionView) -> Seq<char> {
    "    "@ + result_binding_text(f.return_type) + "original_"@ + f.name + "("@
        + call_arguments_text(f.parameters) + ");\n"@
}

/// The line writing the formatted log entry.
pub open spec fn log_line_text(f: FunctionView) -> Seq<char> {
    "    fprintf(output, \""@ + format_string_text(f) + "\""@ + log_arguments_text(f.parameters)
        + (if is_void_type(f.return_type) {
        Seq::<char>::empty()
    } else {
        ", result"@
    }) + ");\n"@
}

/// The closing lines: releasing the opened stream, returning the result for
/// a non-void return type, and the closing brace.
pub open spec fn tail_text(f: FunctionView, dbg: Seq<char>) -> Seq<char> {
    (if dbg == "-"@ {
        Seq::<char>::empty()
    } else {
        "    fclose(output);\n"@
    }) + (if is_void_type(f.return_type) {
        Seq::<char>::empty()
    } else {
        "    return result;\n"@
    }) + "}\n"@
}

/// One whole interceptor definition for a declaration.
pub open spec fn definition_text(f: FunctionView, dbg: Seq<char>) -> Seq<char> {
    signature_text(f, false) + " {\n"@ + output_stream_text(dbg) + lookup_line_text(f)
        + forward_line_text(f) + log_line_text(f) + tail_text(f, dbg)
}

/// Whether the views of two strings are equal, decided character by
/// character.
pub fn str_eq(a: &str, b: &str) -> (r: bool)
    ensures
        r == (a@ == b@),
{
    let la = a.unicode_len();
    let lb = b.unicode_len();
    if la != lb {
        return false;
    }
    let mut i: usize = 0;
    while i < la
        invariant
            i <= la,
            la as nat == a@.len(),
            la as nat == b@.len(),
            forall|j: int| 0 <= j < i ==> a@[j] == b@[j],
        decreases la - i,
    {
        if a.get_char(i) != b.get_char(i) {
            return false;
        }
        i = i + 1;
    }
    proof {
        assert(a@ =~= b@);
    }
    true
}

impl TypeQualifier {
    /// The keyword for this qualifier.
    pub fn text(&self) -> (r: &'static str)
        ensures
            r@ == qualifier_text(*self),
    {
        match self {
            TypeQualifier::Const => "const",
            TypeQualifier::Restrict => "restrict",
            TypeQualifier::Volatile => "volatile",
            TypeQualifier::Atomic => "_Atomic",
        }
    }
}

/// Appends the qualifiers of `v` from index `i` on, each followed by one
/// space.
fn write_qualifiers_from(v: &Vec<TypeQualifier>, i: usize, out: &mut String)
    requires
        i <= v@.len(),
    ensures
        final(out)@ == old(out)@ + qualifiers_text(v@.skip(i as int)),
    decreases v@.len() - i,
{
    if i < v.len() {
        out.append(v[i].text());
        out.append(" ");
        write_qualifiers_from(v, i + 1, out);
        proof {
            assert(v@.skip(i as int).drop_first() =~= v@.skip(i as int + 1));
            assert(out@ =~= old(out)@ + qualifiers_text(v@.skip(i as int)));
        }
    } else {
        proof {
            assert(out@ =~= old(out)@ + qualifiers_text(v@.skip(i as int)));
        }
    }
}

/// Appends `n` pointer stars.
fn write_stars(n: usize, out: &mut String)
    ensures
        final(out)@ == old(out)@ + stars_text(n as nat),
    decreases n,
{
    if n > 0 {
        out.append("*");
        write_stars(n - 1, out);
        proof {
            assert(out@ =~= old(out)@ + stars_text(n as nat));
        }
    } else {
        proof {
            assert(out@ =~= old(out)@ + stars_text(n as nat));
        }
    }
}

impl Type {
    /// Appends this type, rendered back to C text, to `out`.
    pub fn write_text(&self, out: &mut String)
        ensures
            final(out)@ == old(out)@ + type_text(self@),
    {
        proof {
            assert(self.qualifiers@.skip(0) =~= self.qualifiers@);
        }
        write_qualifiers_from(&self.qualifiers, 0, out);
        out.append(self.specifier.as_str());
        if self.pointer > 0 {
            out.append(" ");
            write_stars(self.pointer, out);
        }
        proof {
            assert(out@ =~= old(out)@ + type_text(self@));
        }
    }

    /// Appends this type and, when it has no pointer stars, one separating
    /// space.
    fn write_type_gap(&self, out: &mut String)
        ensures
            final(out)@ == old(out)@ + parameter_type_gap(self@),
    {
        self.write_text(out);
        if self.pointer == 0 {
            out.append(" ");
        }
        proof {
            assert(out@ =~= old(out)@ + parameter_type_gap(self@));
        }
    }

    /// Returns a format specifier for this type.
    pub fn get_format_specifier(&self) -> (r: &'static str)
        ensures
            r@ == format_specifier_text(self@),
    {
        if str_eq(self.specifier.as_str(), "char") && self.pointer == 1 {
            "\\\"%s\\\""
        } else if str_eq(self.specifier.as_str(), "int") && self.pointer == 0 {
            "%d"
        } else if str_eq(self.specifier.as_str(), "size_t") && self.pointer == 0 {
            "%zd"
        } else if self.pointer == 0 {
            "{Unknown Type: %d}"
        } else {
            "%p"
        }
    }

    /// Returns true, if this type is the void type.
    pub fn is_void(&self) -> (r: bool)
        ensures
            r == is_void_type(self@),
    {
        str_eq(self.specifier.as_str(), "void") && self.pointer == 0
    }
}

/// Appends the rendered parameters of `v` from index `i` on,
/// comma-separated.
fn write_parameters_from(v: &Vec<(Type, String)>, i: usize, out: &mut String)
    requires
        i <= v@.len(),
    ensures
        final(out)@ == old(out)@ + parameters_text(
            v@.map_values(|p: (Type, String)| (p.0@, p.1@)).skip(i as int),
        ),
    decreases v@.len() - i,
{
    if i < v.len() {
        v[i].0.write_type_gap(out);
        out.append(v[i].1.as_str());
        if i + 1 < v.len() {
            out.append(", ");
        }
        write_parameters_from(v, i + 1, out);
        proof {
            let ps = v@.map_values(|p: (Type, String)| (p.0@, p.1@));
            assert(ps.skip(i as int).drop_first() =~= ps.skip(i as int + 1));
            assert(out@ =~= old(out)@ + parameters_text(ps.skip(i as int)));
        }
    } else {
        proof {
            let ps = v@.map_values(|p: (Type, String)| (p.0@, p.1@));
            assert(out@ =~= old(out)@ + parameters_text(ps.skip(i as int)));
        }
    }
}

/// Appends the format tokens of the parameters of `v` from index `i` on,
/// comma-separated.
fn write_parameter_formats_from(v: &Vec<(Type, String)>, i: usize, out: &mut String)
    requires
        i <= v@.len(),
    ensures
        final(out)@ == old(out)@ + parameter_formats_text(
            v@.map_values(|p: (Type, String)| (p.0@, p.1@)).skip(i as int),
        ),
    decreases v@.len() - i,
{
    if i < v.len() {
        out.append(v[i].0.get_format_specifier());
        if i + 1 < v.len() {
            out.append(", ");
        }
        write_parameter_formats_from(v, i + 1, out);
        proof {
            let ps = v@.map_values(|p: (Type, String)| (p.0@, p.1@));
            assert(ps.skip(i as int).drop_first() =~= ps.skip(i as int + 1));
            assert(out@ =~= old(out)@ + parameter_formats_text(ps.skip(i as int)));
        }
    } else {
        proof {
            let ps = v@.map_values(|p: (Type, String)| (p.0@, p.1@));
            assert(out@ =~= old(out)@ + parameter_formats_text(ps.skip(i as int)));
        }
    }
}

/// Appends the parameter names of `v` from index `i` on, comma-separated.
fn write_call_arguments_from(v: &Vec<(Type, String)>, i: usize, out: &mut String)
    requires
        i <= v@.len(),
    ensures
        final(out)@ == old(out)@ + call_arguments_text(
            v@.map_values(|p: (Type, String)| (p.0@, p.1@)).skip(i as int),
        ),
    decreases v@.len() - i,
{
    if i < v.len() {
        out.append(v[i].1.as_str());
        if i + 1 < v.len() {
            out.append(", ");
        }
        write_call_arguments_from(v, i + 1, out);
        proof {
            let ps = v@.map_values(|p: (Type, String)| (p.0@, p.1@));
            assert(ps.skip(i as int).drop_first() =~= ps.skip(i as int + 1));
            assert(out@ =~= old(out)@ + call_arguments_text(ps.skip(i as int)));
        }
    } else {
        proof {
            let ps = v@.map_values(|p: (Type, String)| (p.0@, p.1@));
            assert(out@ =~= old(out)@ + call_arguments_text(ps.skip(i as int)));
        }
    }
}

/// Appends the parameter names of `v` from index `i` on, each preceded by
/// a comma.
fn write_log_arguments_from(v: &Vec<(Type, String)>, i: usize, out: &mut String)
    requires
        i <= v@.len(),
    ensures
        final(out)@ == old(out)@ + log_arguments_text(
            v@.map_values(|p: (Type, String)| (p.0@, p.1@)).skip(i as int),
        ),
    decreases v@.len() - i,
{
    if i < v.len() {
        out.append(", ");
        out.append(v[i].1.as_str());
        write_log_arguments_from(v, i + 1, out);
        proof {
            let ps = v@.map_values(|p: (Type, String)| (p.0@, p.1@));
            assert(ps.skip(i as int).drop_first() =~= ps.skip(i as int + 1));
            assert(out@ =~= old(out)@ + log_arguments_text(ps.skip(i as int)));
        }
    } else {
        proof {
            let ps = v@.map_values(|p: (Type, String)| (p.0@, p.1@));
            assert(out@ =~= old(out)@ + log_arguments_text(ps.skip(i as int)));
        }
    }
}

impl Function {
    /// Writes the signature of this function. Optionally as a function
    /// pointer.
    pub fn get_signature(&self, f: &mut String, as_pointer: bool)
        ensures
            final(f)@ == old(f)@ + signature_text(self@, as_pointer),
    {
        self.return_type.write_type_gap(f);
        if as_pointer {
            f.append("(*original_");
            f.append(self.name.as_str());
            f.append(")(");
        } else {
            f.append(self.name.as_str());
            f.append("(");
        }
        proof {
            assert(self@.parameters.skip(0) =~= self@.parameters);
        }
        write_parameters_from(&self.parameters, 0, f);
        f.append(")");
        proof {
            assert(f@ =~= old(f)@ + signature_text(self@, as_pointer));
        }
    }

    /// Writes the line acquiring the output stream.
    fn write_output_stream(f: &mut String, output: &str)
        ensures
            final(f)@ == old(f)@ + output_stream_text(output@),
    {
        if str_eq(output, "-") {
            f.append("    FILE *output = stderr;\n");
        } else {
            f.append("    FILE *output = fopen(\"");
            f.append(output);
            f.append("\", \"a\");\n");
        }
        proof {
            assert(f@ =~= old(f)@ + output_stream_text(output@));
        }
    }

    /// Writes the line resolving the real implementation.
    fn write_lookup_line(&self, f: &mut String)
        ensures
            final(f)@ == old(f)@ + lookup_line_text(self@),
    {
        f.append("    ");
        self.get_signature(f, true);
        f.append(" = dlsym(RTLD_NEXT, \"");
        f.append(self.name.as_str());
        f.append("\");\n");
        proof {
            assert(f@ =~= old(f)@ + lookup_line_text(self@));
        }
    }

    /// Writes the line forwarding the call.
    fn write_forward_line(&self, f: &mut String)
        ensures
            final(f)@ == old(f)@ + forward_line_text(self@),
    {
        f.append("    ");
        if !self.return_type.is_void() {
            self.return_type.write_type_gap(f);
            f.append("result = ");
        }
        f.append("original_");
        f.append(self.name.as_str());
        f.append("(");
        proof {
            assert(self@.parameters.skip(0) =~= self@.parameters);
        }
        write_call_arguments_from(&self.parameters, 0, f);
        f.append(");\n");
        proof {
            assert(f@ =~= old(f)@ + forward_line_text(self@));
        }
    }

    /// Writes the contents of the log format string.
    fn write_format_string(&self, f: &mut String)
        ensures
            final(f)@ == old(f)@ + format_string_text(self@),
    {
        f.append(self.name.as_str());
        f.append("(");
        proof {
            assert(self@.parameters.skip(0) =~= self@.parameters);
        }
        write_parameter_formats_from(&self.parameters, 0, f);
        f.append(")");
        if !self.return_type.is_void() {
            f.append(" = ");
            f.append(self.return_type.get_format_specifier());
        }
        f.append("\\n");
        proof {
            assert(f@ =~= old(f)@ + format_string_text(self@));
        }
    }

    /// Writes the line producing the formatted log entry.
    fn write_log_line(&self, f: &mut String)
        ensures
            final(f)@ == old(f)@ + log_line_text(self@),
    {
        f.append("    fprintf(output, \"");
        self.write_format_string(f);
        f.append("\"");
        proof {
            assert(self@.parameters.skip(0) =~= self@.parameters);
        }
        write_log_arguments_from(&self.parameters, 0, f);
        if !self.return_type.is_void() {
            f.append(", result");
        }
        f.append(");\n");
        proof {
            assert(f@ =~= old(f)@ + log_line_text(self@));
        }
    }

    /// Writes the closing lines of the definition.
    fn write_tail(&self, f: &mut String, output: &str)
        ensures
            final(f)@ == old(f)@ + tail_text(self@, output@),
    {
        if !str_eq(output, "-") {
            f.append("    fclose(output);\n");
        }
        if !self.return_type.is_void() {
            f.append("    return result;\n");
        }
        f.append("}\n");
        proof {
            assert(f@ =~= old(f)@ + tail_text(self@, output@));
        }
    }

    /// Writes the definition of this function: its interceptor, which
    /// resolves the next definition of the symbol, forwards the call, logs
    /// one line to `output` (`-` for the standard error stream), and
    /// returns the captured result unless the return type is void.
    pub fn get_definition(&self, f: &mut String, output: &str)
        ensures
            final(f)@ == old(f)@ + definition_text(self@, output@),
    {
        self.get_signature(f, false);
        f.append(" {\n");
        Self::write_output_stream(f, output);
        self.write_lookup_line(f);
        self.write_forward_line(f);
        self.write_log_line(f);
        self.write_tail(f, output);
        proof {
            assert(f@ =~= old(f)@ + definition_text(self@, output@));
        }
    }
}

} // verus!
