//! The shell script of a template: what it holds, section by section, and
//! the function that writes it.

use crate::helpers::{
    escaped, lemma_escaped_concat, lemma_escaped_one, push_escaped_run, push_run,
};
use crate::path::{
    directory_prefix, extension, extension_of, extension_suffix, file_name_of, has_file_name,
    parent, parent_len_of,
};
use crate::template::{
    filtered_views, text_of, variable_views, FilteredVariable, FilteredView, Template,
    TemplateView, Variable, VariableView,
};
use crate::text::{chars_of, concat_map, lemma_concat_map_step, same_text};
use vstd::prelude::*;

verus! {

/// `n` spaces; none where `n` is not positive.
pub open spec fn spaces(n: int) -> Seq<char> {
    Seq::new(
        if n > 0 {
            n as nat
        } else {
            0
        },
        |i: int| ' ',
    )
}

/// `c` in upper case, where `c` is an ASCII letter.
pub open spec fn upper_char(c: char) -> char {
    if 'a' <= c && c <= 'z' {
        ((c as u8) - 32) as char
    } else {
        c
    }
}

/// `s` with its ASCII letters in upper case.
pub open spec fn uppercased(s: Seq<char>) -> Seq<char> {
    Seq::new(s.len(), |i: int| upper_char(s[i]))
}

/// Whether `v` is the variable that names the file.
pub open spec fn is_file_name_variable(v: VariableView) -> bool {
    v.name == "name"@
}

/// How the script starts: from here to the end of the output section it
/// stands under a test that lets `get-template` and `get-vars` pass by.
pub open spec fn guard_open() -> Seq<char> {
    "#!/bin/sh\nset -e\n\nif [ ! \"$1\" = \"get-template\" ] && [ ! \"$1\" = \"get-vars\" ]; then\n\n# normal template-outputing block\n\n# variable declarations\n"@
}

/// The line that declares `v`, empty.
pub open spec fn declaration(v: VariableView) -> Seq<char> {
    v.name + "=''\n"@
}

/// One declaration for each variable.
pub open spec fn declarations(vars: Seq<VariableView>) -> Seq<char> {
    concat_map(vars, |v: VariableView| declaration(v))
}

/// How the loop over the arguments starts.
pub open spec fn arguments_open() -> Seq<char> {
    "\n# parse arguments\nwhile test $# -gt 0; do\n  case \"$1\" in\n"@
}

/// The branch that takes the value of `v` from the argument behind `--v`.
pub open spec fn argument_branch(v: VariableView) -> Seq<char> {
    "    --"@ + v.name + ")\n      shift\n      "@ + v.name + "=\"$1\"\n      shift\n      ;;\n"@
}

/// One branch for each variable.
pub open spec fn argument_branches(vars: Seq<VariableView>) -> Seq<char> {
    concat_map(vars, |v: VariableView| argument_branch(v))
}

/// The width of `--v V`, the option of a variable named `name`.
pub open spec fn option_width(name: Seq<char>) -> int {
    2 * (name.len() as int) + 3
}

/// The width of the widest option among `vars`; 0 where there is none.
pub open spec fn widest_option(vars: Seq<VariableView>) -> int
    decreases vars.len(),
{
    if vars.len() == 0 {
        0
    } else {
        let rest = widest_option(vars.drop_last());
        let last = option_width(vars.last().name);
        if rest >= last {
            rest
        } else {
            last
        }
    }
}

/// The column at which the help texts start: five behind the widest of
/// `-h, --help` (10 wide), `--name NAME` (11 wide) and the options of `vars`.
pub open spec fn help_column(vars: Seq<VariableView>) -> int {
    let w = widest_option(vars);
    (if w >= 11 {
        w
    } else {
        11
    }) + 5
}

/// The path that the help names: the default path with `NAME` for the file
/// name, the extension kept; `./NAME` without a default path.
pub open spec fn help_path(path: Option<Seq<char>>) -> Seq<char> {
    match path {
        Some(p) => directory_prefix(p) + "NAME"@ + extension_suffix(p),
        None => "./NAME"@,
    }
}

/// The head of the help: the template's name, where the file goes, and the
/// two options that every script has.
pub open spec fn help_head(
    template_name: Seq<char>,
    path: Option<Seq<char>>,
    column: int,
) -> Seq<char> {
    "    *)\n      echo \""@ + template_name + ":\"\n      echo \"generates file at "@ + help_path(
        path,
    ) + "\"\n      echo \"\"\n      echo \"options:\"\n      echo \"-h, --help"@ + spaces(column - 10)
        + "show brief help\"\n      echo \"--name NAME"@ + spaces(column - 11)
        + "filename (without extension)\"\n"@
}

/// The help line of `v`: its option, and its description where it has one,
/// at `column`. The variable `name` has none: its line is in the head.
pub open spec fn help_option(v: VariableView, column: int) -> Seq<char> {
    if is_file_name_variable(v) {
        Seq::empty()
    } else {
        "      echo \"--"@ + v.name + " "@ + uppercased(v.name) + (match v.description {
            Some(d) => spaces(column - option_width(v.name)) + d,
            None => Seq::empty(),
        }) + "\"\n"@
    }
}

/// One help line for each variable but `name`.
pub open spec fn help_options(vars: Seq<VariableView>, column: int) -> Seq<char> {
    concat_map(vars, |v: VariableView| help_option(v, column))
}

/// How the help and the loop over the arguments end.
pub open spec fn arguments_close() -> Seq<char> {
    "      exit 0\n      ;;\n  esac\ndone\n"@
}

/// The line that gives `v` its default, where it has one.
pub open spec fn default_line(v: VariableView) -> Seq<char> {
    match v.default {
        Some(d) => v.name + "=${"@ + v.name + ":-\""@ + d + "\"}\n"@,
        None => Seq::empty(),
    }
}

/// Whether a variable among `vars` has a default.
pub open spec fn any_default(vars: Seq<VariableView>) -> bool {
    exists|i: int| 0 <= i < vars.len() && (#[trigger] vars[i]).default is Some
}

/// The defaults: a heading and one line for each variable that has one;
/// nothing where none has.
pub open spec fn defaults(vars: Seq<VariableView>) -> Seq<char> {
    (if any_default(vars) {
        "\n# set variable defaults\n"@
    } else {
        Seq::empty()
    }) + concat_map(vars, |v: VariableView| default_line(v))
}

/// The test that stops the script where `v` has no value. The variable
/// `name` has its own, below.
pub open spec fn required_check(v: VariableView) -> Seq<char> {
    if is_file_name_variable(v) {
        Seq::empty()
    } else {
        "if [ -z \"$"@ + v.name + "\" ]; then\n  echo \"Error: No value provided for "@ + v.name
            + "\"\n  exit 1\nfi\n"@
    }
}

/// The test for `name`: where the template does not name the variable
/// itself, a missing value only counts when the output goes to a terminal.
pub open spec fn name_check(name_is_explicit: bool) -> Seq<char> {
    "if [ -z \"$name\" ]"@ + (if name_is_explicit {
        Seq::empty()
    } else {
        " && [ -t 1 ]"@
    }) + "; then\n  echo \"Error: No value provided for name\"\n  exit 1\nfi\n"@
}

/// The tests that every variable has a value.
pub open spec fn required_checks(vars: Seq<VariableView>, name_is_explicit: bool) -> Seq<char> {
    "\n# check that all variables have values\n"@ + concat_map(
        vars,
        |v: VariableView| required_check(v),
    ) + name_check(name_is_explicit)
}

/// The shell functions that the filters stand for.
pub open spec fn filter_library() -> Seq<char> {
    "upper() {\n  echo $(echo \"$1\" | tr '[:lower:]' '[:upper:]')\n}\n"@
}

/// The calls of `filters`, opened: the last filter outermost, the first
/// innermost.
pub open spec fn filter_calls(filters: Seq<Seq<char>>) -> Seq<char>
    decreases filters.len(),
{
    if filters.len() == 0 {
        Seq::empty()
    } else {
        "$("@ + filters.last() + " "@ + filter_calls(filters.drop_last())
    }
}

/// `n` closing brackets.
pub open spec fn closings(n: int) -> Seq<char> {
    Seq::new(
        if n > 0 {
            n as nat
        } else {
            0
        },
        |i: int| ')',
    )
}

/// The line that computes the filtered variable `f`: its filters applied to
/// the value of its source, the first filter first.
pub open spec fn filter_assignment(f: FilteredView) -> Seq<char> {
    f.name + "="@ + filter_calls(f.filters) + "\"$"@ + f.source + "\""@ + closings(
        f.filters.len() as int,
    ) + "\n"@
}

/// The filters: the library and one assignment for each filtered variable;
/// nothing where there is no filtered variable.
pub open spec fn filters_section(filtered: Seq<FilteredView>) -> Seq<char> {
    if filtered.len() == 0 {
        Seq::empty()
    } else {
        "\n# filters\n"@ + filter_library() + "\n# filtered variables\n"@ + concat_map(
            filtered,
            |f: FilteredView| filter_assignment(f),
        )
    }
}

/// The line that renders the template.
pub open spec fn render_line(skeleton: Seq<char>) -> Seq<char> {
    "\nout=\""@ + skeleton + "\"\n"@
}

/// The line that makes the directory of the default path, where the path
/// has a parent.
pub open spec fn make_directory(path: Option<Seq<char>>) -> Seq<char> {
    match path {
        Some(p) => match parent(p) {
            Some(dir) => "  mkdir -p \""@ + escaped(dir) + "\"\n"@,
            None => Seq::empty(),
        },
        None => Seq::empty(),
    }
}

/// The path that the script writes to, as it stands between double quotes:
/// the default path, escaped, with `${name}` for the file name and the
/// extension kept; `./${name}` without a default path.
pub open spec fn target_path(path: Option<Seq<char>>) -> Seq<char> {
    match path {
        Some(p) => escaped(directory_prefix(p)) + "${name}"@ + escaped(extension_suffix(p)),
        None => "./${name}"@,
    }
}

/// The output: to the file, after asking before an existing one is
/// overwritten, where the output is a terminal; else to the output itself.
pub open spec fn output_section(path: Option<Seq<char>>) -> Seq<char> {
    "if [ -t 1 ] ; then\n"@ + make_directory(path) + "\n  # check if file exists\n  if [ -f \""@
        + target_path(path)
        + "\" ] ; then\n     read -r -p \"File already exists, overwrite? [y/N] \" response\n     case \"$response\" in\n       [yY][eE][sS]|[yY])\n         ;;\n       *)\n         echo \"Stopping\"\n         exit 1\n         ;;\n     esac\n  fi\n\n  echo \"$out\" > \""@
        + target_path(path) + "\"\n  echo \"created file at "@ + target_path(path)
        + "\";\nelse\n  echo \"$out\"\nfi\n"@
}

/// The line of the payload that holds the default path.
pub open spec fn payload_path(path: Option<Seq<char>>) -> Seq<char> {
    match path {
        Some(p) => "\ndefault_path=\\\""@ + escaped(p) + "\\\"\n"@,
        None => Seq::empty(),
    }
}

/// An entry of the payload: `name` and `value` between escaped quotes.
pub open spec fn payload_entry(name: Seq<char>, value: Option<Seq<char>>) -> Seq<char> {
    match value {
        Some(x) => name + "=\\\""@ + x + "\\\"\n"@,
        None => Seq::empty(),
    }
}

/// The end of the script: `get-template` prints the template as it was
/// written, `get-vars` prints the default path, the defaults and the
/// descriptions.
pub open spec fn self_description(t: TemplateView, path: Option<Seq<char>>) -> Seq<char> {
    "\n# end normal block\nfi\n\n# template editing section\n\nif [ \"$1\" = \"get-template\" ]; then\necho \""@
        + escaped(t.original) + "\"\nfi\n\nif [ \"$1\" = \"get-vars\" ]; then\necho \""@
        + payload_path(path) + "\n[defaults]\n"@ + concat_map(
        t.variables,
        |v: VariableView| payload_entry(v.name, v.default),
    ) + "\n[descriptions]\n"@ + concat_map(
        t.variables,
        |v: VariableView| payload_entry(v.name, v.description),
    ) + "\n\"\nfi\n"@
}

/// The script of the template `t`, named `template_name`, that writes to
/// `path` by default.
pub open spec fn script_text(
    template_name: Seq<char>,
    t: TemplateView,
    path: Option<Seq<char>>,
) -> Seq<char> {
    guard_open() + declarations(t.variables) + arguments_open() + argument_branches(t.variables)
        + help_head(template_name, path, help_column(t.variables)) + help_options(
        t.variables,
        help_column(t.variables),
    ) + arguments_close() + defaults(t.variables) + required_checks(
        t.variables,
        t.name_is_explicit,
    ) + filters_section(t.filtered) + render_line(t.skeleton) + output_section(path)
        + self_description(t, path)
}

/// Appends `n` spaces.
fn push_spaces(out: &mut String, n: u128)
    ensures
        final(out)@ == old(out)@ + spaces(n as int),
{
    let mut i: u128 = 0;
    while i < n
        invariant
            i <= n,
            out@ == old(out)@ + spaces(i as int),
        decreases n - i,
    {
        out.push(' ');
        i += 1;
    }
}

/// Appends `s` with its ASCII letters in upper case.
fn push_uppercased(out: &mut String, s: &str)
    ensures
        final(out)@ == old(out)@ + uppercased(s@),
{
    for c in it: s.chars()
        invariant
            it.seq() == s@,
            out@ == old(out)@ + uppercased(s@.take(it.index() as int)),
    {
        let u = if 'a' <= c && c <= 'z' {
            ((c as u8) - 32) as char
        } else {
            c
        };
        out.push(u);
    }
}

/// Whether `v` is the variable that names the file.
fn names_the_file(v: &Variable) -> (b: bool)
    ensures
        b == is_file_name_variable(v@),
{
    same_text(v.variable, "name")
}

/// Appends one declaration for each variable.
fn emit_declarations(script: &mut String, vars: &Vec<Variable>)
    ensures
        final(script)@ == old(script)@ + declarations(variable_views(vars@)),
{
    let ghost views = variable_views(vars@);
    let n = vars.len();
    let mut i: usize = 0;
    while i < n
        invariant
            i <= n,
            n == vars@.len(),
            views == variable_views(vars@),
            script@ == old(script)@ + declarations(views.take(i as int)),
        decreases n - i,
    {
        script.append(vars[i].variable);
        script.append("=''\n");
        proof {
            lemma_concat_map_step(views, |v: VariableView| declaration(v), i as int);
        }
        i += 1;
    }
    assert(views.take(n as int) =~= views);
}

/// Appends one branch of the loop over the arguments for each variable.
fn emit_argument_branches(script: &mut String, vars: &Vec<Variable>)
    ensures
        final(script)@ == old(script)@ + argument_branches(variable_views(vars@)),
{
    let ghost views = variable_views(vars@);
    let n = vars.len();
    let mut i: usize = 0;
    while i < n
        invariant
            i <= n,
            n == vars@.len(),
            views == variable_views(vars@),
            script@ == old(script)@ + argument_branches(views.take(i as int)),
        decreases n - i,
    {
        script.append("    --");
        script.append(vars[i].variable);
        script.append(")\n      shift\n      ");
        script.append(vars[i].variable);
        script.append("=\"$1\"\n      shift\n      ;;\n");
        proof {
            lemma_concat_map_step(views, |v: VariableView| argument_branch(v), i as int);
        }
        i += 1;
    }
    assert(views.take(n as int) =~= views);
}

/// The column at which the help texts start.
fn help_column_of(vars: &Vec<Variable>) -> (column: u128)
    ensures
        column == help_column(variable_views(vars@)),
{
    let ghost views = variable_views(vars@);
    let n = vars.len();
    let mut widest: u128 = 0;
    let mut i: usize = 0;
    while i < n
        invariant
            i <= n,
            n == vars@.len(),
            views == variable_views(vars@),
            widest == widest_option(views.take(i as int)),
            widest <= 2 * usize::MAX + 3,
        decreases n - i,
    {
        let len = vars[i].variable.unicode_len();
        let width: u128 = (len as u128) * 2 + 3;
        if width > widest {
            widest = width;
        }
        assert(views.take(i + 1).drop_last() =~= views.take(i as int));
        i += 1;
    }
    assert(views.take(n as int) =~= views);
    (if widest >= 11 {
        widest
    } else {
        11
    }) + 5
}

/// The characters of an optional run of characters.
pub open spec fn run_of(path: Option<Vec<char>>) -> Option<Seq<char>> {
    match path {
        Some(p) => Some(p@),
        None => None,
    }
}

/// Appends what stands in front of the file name of `p`, escaped or not.
fn push_directory_prefix(out: &mut String, p: &Vec<char>, escape: bool)
    ensures
        final(out)@ == old(out)@ + (if escape {
            escaped(directory_prefix(p@))
        } else {
            directory_prefix(p@)
        }),
{
    let base = match file_name_of(p) {
        Some(_) => {
            match parent_len_of(p) {
                Some(n) => n,
                None => p.len(),
            }
        },
        None => p.len(),
    };
    let ghost taken = p@.subrange(0, base as int);
    assert(!has_file_name(p@) ==> taken =~= p@);
    if escape {
        push_escaped_run(out, p, 0, base);
    } else {
        push_run(out, p, 0, base);
    }
    if base > 0 && p[base - 1] != '/' {
        out.push('/');
        proof {
            lemma_escaped_concat(taken, seq!['/']);
            assert(taken.push('/') =~= taken + seq!['/']);
            lemma_escaped_one('/');
        }
    }
}

/// Appends what stands behind the file name when the extension of `p` is
/// kept, escaped or not.
fn push_extension_suffix(out: &mut String, p: &Vec<char>, escape: bool)
    ensures
        final(out)@ == old(out)@ + (if escape {
            escaped(extension_suffix(p@))
        } else {
            extension_suffix(p@)
        }),
{
    match extension_of(p) {
        Some((d, e)) => {
            if d < e {
                out.push('.');
                if escape {
                    push_escaped_run(out, p, d, e);
                } else {
                    push_run(out, p, d, e);
                }
                proof {
                    let x = p@.subrange(d as int, e as int);
                    lemma_escaped_concat(seq!['.'], x);
                    lemma_escaped_one('.');
                }
            }
        },
        None => {},
    }
}

/// Appends the head of the help.
fn emit_help_head(script: &mut String, template_name: &str, path: &Option<Vec<char>>, column: u128)
    requires
        column >= 16,
    ensures
        final(script)@ == old(script)@ + help_head(template_name@, run_of(*path), column as int),
{
    script.append("    *)\n      echo \"");
    script.append(template_name);
    script.append(":\"\n      echo \"generates file at ");
    match path {
        Some(p) => {
            push_directory_prefix(script, p, false);
            script.append("NAME");
            push_extension_suffix(script, p, false);
        },
        None => {
            script.append("./NAME");
        },
    }
    script.append("\"\n      echo \"\"\n      echo \"options:\"\n      echo \"-h, --help");
    push_spaces(script, column - 10);
    script.append("show brief help\"\n      echo \"--name NAME");
    push_spaces(script, column - 11);
    script.append("filename (without extension)\"\n");
}

/// Appends one help line for each variable but `name`.
fn emit_help_options(script: &mut String, vars: &Vec<Variable>, column: u128)
    requires
        column == help_column(variable_views(vars@)),
    ensures
        final(script)@ == old(script)@ + help_options(variable_views(vars@), column as int),
{
    let ghost views = variable_views(vars@);
    let n = vars.len();
    let mut i: usize = 0;
    while i < n
        invariant
            i <= n,
            n == vars@.len(),
            views == variable_views(vars@),
            column == help_column(views),
            script@ == old(script)@ + help_options(views.take(i as int), column as int),
        decreases n - i,
    {
        let v = &vars[i];
        let ghost before = script@;
        if !names_the_file(v) {
            script.append("      echo \"--");
            script.append(v.variable);
            script.append(" ");
            push_uppercased(script, v.variable);
            match &v.description {
                Some(d) => {
                    let len = v.variable.unicode_len();
                    let width: u128 = (len as u128) * 2 + 3;
                    proof {
                        lemma_widest_bounds(views, i as int);
                    }
                    push_spaces(script, column - width);
                    script.append(d.as_str());
                },
                None => {},
            }
            script.append("\"\n");
        }
        proof {
            assert(script@ =~= before + help_option(views[i as int], column as int));
            lemma_concat_map_step(views, |v: VariableView| help_option(v, column as int), i as int);
        }
        i += 1;
    }
    assert(views.take(n as int) =~= views);
}

/// No option is wider than the widest.
pub proof fn lemma_widest_bounds(vars: Seq<VariableView>, i: int)
    requires
        0 <= i < vars.len(),
    ensures
        option_width(vars[i].name) <= widest_option(vars),
    decreases vars.len(),
{
    if i < vars.len() - 1 {
        lemma_widest_bounds(vars.drop_last(), i);
    }
}

/// Whether a variable among `vars` has a default.
fn has_defaults(vars: &Vec<Variable>) -> (b: bool)
    ensures
        b == any_default(variable_views(vars@)),
{
    let ghost views = variable_views(vars@);
    let n = vars.len();
    let mut i: usize = 0;
    while i < n
        invariant
            i <= n,
            n == vars@.len(),
            views == variable_views(vars@),
            forall|k: int| 0 <= k < i ==> (#[trigger] views[k]).default is None,
        decreases n - i,
    {
        if vars[i].default.is_some() {
            assert(views[i as int].default is Some);
            return true;
        }
        i += 1;
    }
    false
}

/// Appends the defaults.
fn emit_defaults(script: &mut String, vars: &Vec<Variable>)
    ensures
        final(script)@ == old(script)@ + defaults(variable_views(vars@)),
{
    let ghost views = variable_views(vars@);
    if has_defaults(vars) {
        script.append("\n# set variable defaults\n");
    }
    let ghost head = script@;
    let n = vars.len();
    let mut i: usize = 0;
    while i < n
        invariant
            i <= n,
            n == vars@.len(),
            views == variable_views(vars@),
            script@ == head + concat_map(views.take(i as int), |v: VariableView| default_line(v)),
        decreases n - i,
    {
        let v = &vars[i];
        match &v.default {
            Some(d) => {
                script.append(v.variable);
                script.append("=${");
                script.append(v.variable);
                script.append(":-\"");
                script.append(d.as_str());
                script.append("\"}\n");
            },
            None => {},
        }
        proof {
            lemma_concat_map_step(views, |v: VariableView| default_line(v), i as int);
        }
        i += 1;
    }
    assert(views.take(n as int) =~= views);
}

/// Appends the tests that every variable has a value.
fn emit_required_checks(script: &mut String, vars: &Vec<Variable>, name_is_explicit: bool)
    ensures
        final(script)@ == old(script)@ + required_checks(variable_views(vars@), name_is_explicit),
{
    let ghost views = variable_views(vars@);
    script.append("\n# check that all variables have values\n");
    let ghost head = script@;
    let n = vars.len();
    let mut i: usize = 0;
    while i < n
        invariant
            i <= n,
            n == vars@.len(),
            views == variable_views(vars@),
            script@ == head + concat_map(views.take(i as int), |v: VariableView| required_check(v)),
        decreases n - i,
    {
        let v = &vars[i];
        if !names_the_file(v) {
            script.append("if [ -z \"$");
            script.append(v.variable);
            script.append("\" ]; then\n  echo \"Error: No value provided for ");
            script.append(v.variable);
            script.append("\"\n  exit 1\nfi\n");
        }
        proof {
            lemma_concat_map_step(views, |v: VariableView| required_check(v), i as int);
        }
        i += 1;
    }
    assert(views.take(n as int) =~= views);
    script.append("if [ -z \"$name\" ]");
    if !name_is_explicit {
        script.append(" && [ -t 1 ]");
    }
    script.append("; then\n  echo \"Error: No value provided for name\"\n  exit 1\nfi\n");
}

/// Appends the line that computes the filtered variable `f`.
fn emit_filter_assignment(script: &mut String, f: &FilteredVariable)
    ensures
        final(script)@ == old(script)@ + filter_assignment(f@),
{
    let ghost filters = f@.filters;
    script.append(f.name.as_str());
    script.append("=");
    let ghost head = script@;
    let n = f.filters.len();
    let mut k: usize = n;
    assert(filters.take(n as int) =~= filters);
    while k > 0
        invariant
            k <= n,
            n == f.filters@.len(),
            filters == f@.filters,
            script@ + filter_calls(filters.take(k as int)) == head + filter_calls(filters),
        decreases k,
    {
        k -= 1;
        script.append("$(");
        script.append(f.filters[k]);
        script.append(" ");
        proof {
            let taken = filters.take(k + 1);
            assert(taken.drop_last() =~= filters.take(k as int));
        }
    }
    script.append("\"$");
    script.append(f.variable);
    script.append("\"");
    let ghost called = script@;
    let mut j: usize = 0;
    while j < n
        invariant
            j <= n,
            script@ == called + closings(j as int),
        decreases n - j,
    {
        script.push(')');
        j += 1;
    }
    script.append("\n");
}

/// Appends the filters.
fn emit_filters(script: &mut String, filtered: &Vec<FilteredVariable>)
    ensures
        final(script)@ == old(script)@ + filters_section(filtered_views(filtered@)),
{
    let ghost views = filtered_views(filtered@);
    let n = filtered.len();
    if n == 0 {
        return ;
    }
    script.append("\n# filters\n");
    script.append("upper() {\n  echo $(echo \"$1\" | tr '[:lower:]' '[:upper:]')\n}\n");
    script.append("\n# filtered variables\n");
    let ghost head = script@;
    let mut i: usize = 0;
    while i < n
        invariant
            i <= n,
            n == filtered@.len(),
            views == filtered_views(filtered@),
            script@ == head + concat_map(views.take(i as int), |f: FilteredView| filter_assignment(f)),
        decreases n - i,
    {
        emit_filter_assignment(script, &filtered[i]);
        proof {
            lemma_concat_map_step(views, |f: FilteredView| filter_assignment(f), i as int);
        }
        i += 1;
    }
    assert(views.take(n as int) =~= views);
}

/// The path that the script writes to, as it stands between double quotes.
fn target_path_of(path: &Option<Vec<char>>) -> (target: String)
    ensures
        target@ == target_path(run_of(*path)),
{
    let mut target = String::new();
    match path {
        Some(p) => {
            push_directory_prefix(&mut target, p, true);
            target.append("${name}");
            push_extension_suffix(&mut target, p, true);
        },
        None => {
            target.append("./${name}");
        },
    }
    target
}

/// Appends the output.
fn emit_output(script: &mut String, path: &Option<Vec<char>>)
    ensures
        final(script)@ == old(script)@ + output_section(run_of(*path)),
{
    script.append("if [ -t 1 ] ; then\n");
    match path {
        Some(p) => {
            match parent_len_of(p) {
                Some(n) => {
                    script.append("  mkdir -p \"");
                    push_escaped_run(script, p, 0, n);
                    script.append("\"\n");
                },
                None => {},
            }
        },
        None => {},
    }
    let target = target_path_of(path);
    script.append("\n  # check if file exists\n  if [ -f \"");
    script.append(target.as_str());
    script.append(
        "\" ] ; then\n     read -r -p \"File already exists, overwrite? [y/N] \" response\n     case \"$response\" in\n       [yY][eE][sS]|[yY])\n         ;;\n       *)\n         echo \"Stopping\"\n         exit 1\n         ;;\n     esac\n  fi\n\n  echo \"$out\" > \"",
    );
    script.append(target.as_str());
    script.append("\"\n  echo \"created file at ");
    script.append(target.as_str());
    script.append("\";\nelse\n  echo \"$out\"\nfi\n");
}

/// Appends the entries of the payload that hold the defaults of `vars`, or
/// their descriptions.
fn emit_payload_entries(script: &mut String, vars: &Vec<Variable>, descriptions: bool)
    ensures
        final(script)@ == old(script)@ + (if descriptions {
            concat_map(variable_views(vars@), |v: VariableView| payload_entry(v.name, v.description))
        } else {
            concat_map(variable_views(vars@), |v: VariableView| payload_entry(v.name, v.default))
        }),
{
    let ghost views = variable_views(vars@);
    let ghost line = if descriptions {
        |v: VariableView| payload_entry(v.name, v.description)
    } else {
        |v: VariableView| payload_entry(v.name, v.default)
    };
    let n = vars.len();
    let mut i: usize = 0;
    while i < n
        invariant
            i <= n,
            n == vars@.len(),
            views == variable_views(vars@),
            line == (if descriptions {
                |v: VariableView| payload_entry(v.name, v.description)
            } else {
                |v: VariableView| payload_entry(v.name, v.default)
            }),
            script@ == old(script)@ + concat_map(views.take(i as int), line),
        decreases n - i,
    {
        let v = &vars[i];
        let value = if descriptions {
            &v.description
        } else {
            &v.default
        };
        match value {
            Some(x) => {
                script.append(v.variable);
                script.append("=\\\"");
                script.append(x.as_str());
                script.append("\\\"\n");
            },
            None => {},
        }
        proof {
            lemma_concat_map_step(views, line, i as int);
        }
        i += 1;
    }
    assert(views.take(n as int) =~= views);
}

/// Appends the end of the script, which prints the template and its values.
fn emit_self_description(script: &mut String, t: &Template, path: &Option<Vec<char>>)
    ensures
        final(script)@ == old(script)@ + self_description(t@, run_of(*path)),
{
    script.append(
        "\n# end normal block\nfi\n\n# template editing section\n\nif [ \"$1\" = \"get-template\" ]; then\necho \"",
    );
    let original = chars_of(t.original);
    push_escaped_run(script, &original, 0, original.len());
    assert(original@.subrange(0, original@.len() as int) =~= original@);
    script.append("\"\nfi\n\nif [ \"$1\" = \"get-vars\" ]; then\necho \"");
    match path {
        Some(p) => {
            script.append("\ndefault_path=\\\"");
            push_escaped_run(script, p, 0, p.len());
            assert(p@.subrange(0, p@.len() as int) =~= p@);
            script.append("\\\"\n");
        },
        None => {},
    }
    script.append("\n[defaults]\n");
    emit_payload_entries(script, &t.variables, false);
    script.append("\n[descriptions]\n");
    emit_payload_entries(script, &t.variables, true);
    script.append("\n\"\nfi\n");
}

/// Writes the script of the template `t`. The script is named
/// `template_name` in its help, and writes to `default_path`, with the value
/// of `name` for the file name, unless that is `None`: then it writes to
/// the file `name` in the current directory.
pub fn generate_bash_script(template_name: &str, t: Template, default_path: Option<String>) -> (script:
    String)
    ensures
        script@ == script_text(template_name@, t@, text_of(default_path)),
{
    let path: Option<Vec<char>> = match &default_path {
        Some(p) => Some(chars_of(p.as_str())),
        None => None,
    };
    let mut script = String::from_str(
        "#!/bin/sh\nset -e\n\nif [ ! \"$1\" = \"get-template\" ] && [ ! \"$1\" = \"get-vars\" ]; then\n\n# normal template-outputing block\n\n# variable declarations\n",
    );
    emit_declarations(&mut script, &t.variables);
    script.append("\n# parse arguments\nwhile test $# -gt 0; do\n  case \"$1\" in\n");
    emit_argument_branches(&mut script, &t.variables);
    let column = help_column_of(&t.variables);
    emit_help_head(&mut script, template_name, &path, column);
    emit_help_options(&mut script, &t.variables, column);
    script.append("      exit 0\n      ;;\n  esac\ndone\n");
    emit_defaults(&mut script, &t.variables);
    emit_required_checks(&mut script, &t.variables, t.is_name_used);
    emit_filters(&mut script, &t.filtered);
    script.append("\nout=\"");
    script.append(t.generated.as_str());
    script.append("\"\n");
    emit_output(&mut script, &path);
    emit_self_description(&mut script, &t, &path);
    script
}

} // verus!
