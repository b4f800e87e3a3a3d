//! Command-line options of `rama-check`, and the Clojure forms its learn
//! drive mode sends to the runtime.

use vstd::prelude::*;
use crate::ast::{Item, SourceFile};
use crate::text::{cat, owned, replace_all, replace_spec, str_eq};

verus! {

pub fn usage() -> (out: &'static str)
    ensures
        out@ == "usage:\n  rama-check <file.rama>\n  rama-check check <file.rama> [--nrepl HOST:PORT]\n  rama-check observe-call <file.rama> <var> --args '<edn-vector>' --nrepl HOST:PORT [--write]\n  rama-check learn <file.rama> --tape <violations-file> [--write]\n  rama-check learn <file.rama> --nrepl HOST:PORT --eval '<form>' [--write]\n  rama-check transpile <file.rama> [-o out.clj]\n  rama-check watch <dir-or-file> [-o out-dir]"@,
{
    "usage:\n  rama-check <file.rama>\n  rama-check check <file.rama> [--nrepl HOST:PORT]\n  rama-check observe-call <file.rama> <var> --args '<edn-vector>' --nrepl HOST:PORT [--write]\n  rama-check learn <file.rama> --tape <violations-file> [--write]\n  rama-check learn <file.rama> --nrepl HOST:PORT --eval '<form>' [--write]\n  rama-check transpile <file.rama> [-o out.clj]\n  rama-check watch <dir-or-file> [-o out-dir]"
}

pub open spec fn texts(args: Seq<String>) -> Seq<Seq<char>> {
    args.map_values(|a: String| a@)
}

/// Whether an argument looks like an option.
pub open spec fn is_option(a: Seq<char>) -> bool {
    a.len() > 0 && a[0] == '-'
}

/// What `check` options mean, read from `index` on with what was read
/// before: the one path, and the `--nrepl` address (the last one given).
pub open spec fn check_options_spec(
    args: Seq<Seq<char>>,
    index: int,
    path: Option<Seq<char>>,
    nrepl: Option<Seq<char>>,
) -> Option<(Seq<char>, Option<Seq<char>>)>
    decreases args.len() - index,
{
    if index < 0 || index >= args.len() {
        match path {
            Some(p) => Some((p, nrepl)),
            None => None,
        }
    } else if args[index] == "--nrepl"@ {
        if index + 1 < args.len() {
            check_options_spec(args, index + 2, path, Some(args[index + 1]))
        } else {
            None
        }
    } else if is_option(args[index]) {
        None
    } else if path is Some {
        None
    } else {
        check_options_spec(args, index + 1, Some(args[index]), nrepl)
    }
}

fn first_is_dash(s: &str) -> (r: bool)
    ensures
        r == is_option(s@),
{
    let cs = crate::text::chars_of(s);
    cs.len() > 0 && cs[0] == '-'
}

/// The `.rama` path and the `--nrepl` address of `check`.
pub fn parse_check_options(args: &Vec<String>) -> (out: Result<(String, Option<String>), String>)
    ensures
        out is Ok <==> check_options_spec(texts(args@), 0, None, None) is Some,
        out matches Ok((p, n)) ==> check_options_spec(texts(args@), 0, None, None) == Some(
            (p@, match n {
                Some(a) => Some(a@),
                None => None,
            }),
        ),
{
    let mut path: Option<String> = None;
    let mut nrepl: Option<String> = None;
    let mut index: usize = 0;
    while index < args.len()
        invariant
            index <= args.len(),
            check_options_spec(
                texts(args@),
                index as int,
                match path {
                    Some(p) => Some(p@),
                    None => None,
                },
                match nrepl {
                    Some(a) => Some(a@),
                    None => None,
                },
            ) == check_options_spec(texts(args@), 0, None, None),
        decreases args.len() - index,
    {
        let value = args[index].as_str();
        assert(texts(args@)[index as int] == value@);
        if str_eq(value, "--nrepl") {
            if index + 1 >= args.len() {
                return Err(owned("missing value after --nrepl"));
            }
            assert(texts(args@)[index + 1] == args@[index + 1]@);
            nrepl = Some(args[index + 1].clone());
            index += 2;
        } else if first_is_dash(value) {
            return Err(cat(vec!["unknown option ", value]));
        } else {
            if path.is_some() {
                return Err(cat(vec!["unexpected argument ", value]));
            }
            path = Some(owned(value));
            index += 1;
        }
    }
    match path {
        Some(p) => Ok((p, nrepl)),
        None => Err(owned("missing .rama path")),
    }
}

/// What `transpile` and `watch` options mean: the one path, and the
/// `-o`/`--output` target (the last one given).
pub open spec fn path_output_spec(
    args: Seq<Seq<char>>,
    index: int,
    path: Option<Seq<char>>,
    output: Option<Seq<char>>,
) -> Option<(Seq<char>, Option<Seq<char>>)>
    decreases args.len() - index,
{
    if index < 0 || index >= args.len() {
        match path {
            Some(p) => Some((p, output)),
            None => None,
        }
    } else if args[index] == "-o"@ || args[index] == "--output"@ {
        if index + 1 < args.len() {
            path_output_spec(args, index + 2, path, Some(args[index + 1]))
        } else {
            None
        }
    } else if is_option(args[index]) {
        None
    } else if path is Some {
        None
    } else {
        path_output_spec(args, index + 1, Some(args[index]), output)
    }
}

/// The path and the `-o` output of `transpile` and `watch`.
pub fn parse_path_and_output(args: &Vec<String>) -> (out: Result<(String, Option<String>), String>)
    ensures
        out is Ok <==> path_output_spec(texts(args@), 0, None, None) is Some,
        out matches Ok((p, o)) ==> path_output_spec(texts(args@), 0, None, None) == Some(
            (p@, match o {
                Some(a) => Some(a@),
                None => None,
            }),
        ),
{
    let mut path: Option<String> = None;
    let mut output: Option<String> = None;
    let mut i: usize = 0;
    while i < args.len()
        invariant
            i <= args.len(),
            path_output_spec(
                texts(args@),
                i as int,
                match path {
                    Some(p) => Some(p@),
                    None => None,
                },
                match output {
                    Some(a) => Some(a@),
                    None => None,
                },
            ) == path_output_spec(texts(args@), 0, None, None),
        decreases args.len() - i,
    {
        let value = args[i].as_str();
        assert(texts(args@)[i as int] == value@);
        if str_eq(value, "-o") || str_eq(value, "--output") {
            if i + 1 >= args.len() {
                return Err(owned("missing value after -o"));
            }
            assert(texts(args@)[i + 1] == args@[i + 1]@);
            output = Some(args[i + 1].clone());
            i += 2;
        } else if first_is_dash(value) {
            return Err(cat(vec!["unknown option ", value]));
        } else {
            if path.is_some() {
                return Err(cat(vec!["unexpected argument ", value]));
            }
            path = Some(owned(value));
            i += 1;
        }
    }
    match path {
        Some(p) => Ok((p, output)),
        None => Err(owned("missing .rama path")),
    }
}

pub struct ObserveOptions {
    pub path: String,
    pub var: String,
    pub args_edn: String,
    pub nrepl: String,
    pub write: bool,
}

/// What `observe-call` options after the path and Var mean, read from
/// `index` on: the `--args` and `--nrepl` values (last ones given) and
/// whether `--write` was given.
pub open spec fn observe_options_spec(
    args: Seq<Seq<char>>,
    index: int,
    args_edn: Option<Seq<char>>,
    nrepl: Option<Seq<char>>,
    write: bool,
) -> Option<(Seq<char>, Seq<char>, bool)>
    decreases args.len() - index,
{
    if index < 0 || index >= args.len() {
        match (args_edn, nrepl) {
            (Some(a), Some(n)) => Some((a, n, write)),
            _ => None,
        }
    } else if args[index] == "--args"@ {
        if index + 1 < args.len() {
            observe_options_spec(args, index + 2, Some(args[index + 1]), nrepl, write)
        } else {
            None
        }
    } else if args[index] == "--nrepl"@ {
        if index + 1 < args.len() {
            observe_options_spec(args, index + 2, args_edn, Some(args[index + 1]), write)
        } else {
            None
        }
    } else if args[index] == "--write"@ {
        observe_options_spec(args, index + 1, args_edn, nrepl, true)
    } else {
        None
    }
}

/// The options of `observe-call`: path, Var, `--args`, `--nrepl`,
/// `--write`.
pub fn parse_observe_options(args: &Vec<String>) -> (out: Result<ObserveOptions, String>)
    ensures
        out is Ok <==> args@.len() >= 2 && observe_options_spec(texts(args@), 2, None, None, false) is Some,
        out matches Ok(o) ==> o.path@ == args@[0]@ && o.var@ == args@[1]@
            && observe_options_spec(texts(args@), 2, None, None, false) == Some((o.args_edn@, o.nrepl@, o.write)),
{
    if args.len() == 0 {
        return Err(owned("observe-call requires a .rama file"));
    }
    let path = args[0].clone();
    if args.len() < 2 {
        return Err(owned("observe-call requires a Var name"));
    }
    let var = args[1].clone();
    let mut args_edn: Option<String> = None;
    let mut nrepl: Option<String> = None;
    let mut write = false;
    let mut index: usize = 2;
    while index < args.len()
        invariant
            2 <= index <= args.len(),
            observe_options_spec(
                texts(args@),
                index as int,
                match args_edn {
                    Some(a) => Some(a@),
                    None => None,
                },
                match nrepl {
                    Some(a) => Some(a@),
                    None => None,
                },
                write,
            ) == observe_options_spec(texts(args@), 2, None, None, false),
        decreases args.len() - index,
    {
        let value = args[index].as_str();
        assert(texts(args@)[index as int] == value@);
        if str_eq(value, "--args") {
            if index + 1 >= args.len() {
                return Err(owned("missing value after --args"));
            }
            assert(texts(args@)[index + 1] == args@[index + 1]@);
            args_edn = Some(args[index + 1].clone());
            index += 2;
        } else if str_eq(value, "--nrepl") {
            if index + 1 >= args.len() {
                return Err(owned("missing value after --nrepl"));
            }
            assert(texts(args@)[index + 1] == args@[index + 1]@);
            nrepl = Some(args[index + 1].clone());
            index += 2;
        } else if str_eq(value, "--write") {
            write = true;
            index += 1;
        } else {
            return Err(cat(vec!["unexpected observe-call option `", value, "`"]));
        }
    }
    let args_edn = match args_edn {
        Some(a) => a,
        None => {
            return Err(owned("observe-call requires --args"));
        },
    };
    let nrepl = match nrepl {
        Some(n) => n,
        None => {
            return Err(owned("observe-call requires --nrepl"));
        },
    };
    Ok(ObserveOptions { path, var, args_edn, nrepl, write })
}

pub struct LearnOptions {
    pub path: String,
    pub tape: Option<String>,
    pub nrepl: Option<String>,
    pub eval_forms: Vec<String>,
    pub write: bool,
}

/// What `learn` options after the path mean, read from `index` on: the
/// `--tape` and `--nrepl` values (last ones given), the `--eval` forms in
/// order, and whether `--write` was given.
pub open spec fn learn_options_spec(
    args: Seq<Seq<char>>,
    index: int,
    tape: Option<Seq<char>>,
    nrepl: Option<Seq<char>>,
    evals: Seq<Seq<char>>,
    write: bool,
) -> Option<(Option<Seq<char>>, Option<Seq<char>>, Seq<Seq<char>>, bool)>
    decreases args.len() - index,
{
    if index < 0 || index >= args.len() {
        if tape is None && (nrepl is None || evals.len() == 0) {
            None
        } else {
            Some((tape, nrepl, evals, write))
        }
    } else if args[index] == "--tape"@ {
        if index + 1 < args.len() {
            learn_options_spec(args, index + 2, Some(args[index + 1]), nrepl, evals, write)
        } else {
            None
        }
    } else if args[index] == "--nrepl"@ {
        if index + 1 < args.len() {
            learn_options_spec(args, index + 2, tape, Some(args[index + 1]), evals, write)
        } else {
            None
        }
    } else if args[index] == "--eval"@ {
        if index + 1 < args.len() {
            learn_options_spec(args, index + 2, tape, nrepl, evals.push(args[index + 1]), write)
        } else {
            None
        }
    } else if args[index] == "--write"@ {
        learn_options_spec(args, index + 1, tape, nrepl, evals, true)
    } else {
        None
    }
}

/// The options of `learn`: path, `--tape`, `--nrepl`, `--eval` forms,
/// `--write`; a tape, or an nREPL address with forms to evaluate, is
/// required.
pub fn parse_learn_options(args: &Vec<String>) -> (out: Result<LearnOptions, String>)
    ensures
        out is Ok <==> args@.len() >= 1 && learn_options_spec(texts(args@), 1, None, None, Seq::empty(), false) is Some,
        out matches Ok(o) ==> o.path@ == args@[0]@ && learn_options_spec(texts(args@), 1, None, None, Seq::empty(), false)
            == Some((opt_text_spec(o.tape), opt_text_spec(o.nrepl), texts(o.eval_forms@), o.write)),
{
    if args.len() == 0 {
        return Err(owned("learn requires a .rama file"));
    }
    let path = args[0].clone();
    let mut tape: Option<String> = None;
    let mut nrepl: Option<String> = None;
    let mut eval_forms: Vec<String> = Vec::new();
    let mut write = false;
    let mut index: usize = 1;
    assert(texts(eval_forms@) =~= Seq::<Seq<char>>::empty());
    while index < args.len()
        invariant
            1 <= index <= args.len(),
            learn_options_spec(texts(args@), index as int, opt_text_spec(tape), opt_text_spec(nrepl), texts(eval_forms@), write)
                == learn_options_spec(texts(args@), 1, None, None, Seq::empty(), false),
        decreases args.len() - index,
    {
        let value = args[index].as_str();
        assert(texts(args@)[index as int] == value@);
        if str_eq(value, "--tape") {
            if index + 1 >= args.len() {
                return Err(owned("missing value after --tape"));
            }
            assert(texts(args@)[index + 1] == args@[index + 1]@);
            tape = Some(args[index + 1].clone());
            index += 2;
        } else if str_eq(value, "--nrepl") {
            if index + 1 >= args.len() {
                return Err(owned("missing value after --nrepl"));
            }
            assert(texts(args@)[index + 1] == args@[index + 1]@);
            nrepl = Some(args[index + 1].clone());
            index += 2;
        } else if str_eq(value, "--eval") {
            if index + 1 >= args.len() {
                return Err(owned("missing value after --eval"));
            }
            assert(texts(args@)[index + 1] == args@[index + 1]@);
            let form = args[index + 1].clone();
            let ghost before = eval_forms@;
            eval_forms.push(form);
            assert(texts(eval_forms@) =~= texts(before).push(args@[index + 1]@));
            index += 2;
        } else if str_eq(value, "--write") {
            write = true;
            index += 1;
        } else {
            return Err(cat(vec!["unexpected learn option `", value, "`"]));
        }
    }
    if tape.is_none() && (nrepl.is_none() || eval_forms.len() == 0) {
        return Err(owned("learn requires either --tape, or --nrepl plus --eval"));
    }
    Ok(LearnOptions { path, tape, nrepl, eval_forms, write })
}

pub open spec fn opt_text_spec(o: Option<String>) -> Option<Seq<char>> {
    match o {
        Some(s) => Some(s@),
        None => None,
    }
}

/// A Clojure string literal with `\` and `"` escaped.
pub open spec fn quoted_spec(value: Seq<char>) -> Seq<char> {
    seq!['"'] + replace_spec(replace_spec(value, "\\"@, "\\\\"@), "\""@, "\\\""@) + seq!['"']
}

pub fn quoted(value: &str) -> (out: String)
    ensures
        out@ == quoted_spec(value@),
{
    let a = replace_all(value, "\\", "\\\\");
    let b = replace_all(a.as_str(), "\"", "\\\"");
    let mut out = String::new();
    out.push('"');
    out.push_str(b.as_str());
    out.push('"');
    assert(out@ =~= quoted_spec(value@));
    out
}

/// The name of the first `module` declaration among the items.
pub open spec fn first_module(items: Seq<Item>) -> Option<Seq<char>>
    decreases items.len(),
{
    if items.len() == 0 {
        None
    } else {
        match items[0] {
            Item::Module(m) => Some(m.name.node@),
            _ => first_module(items.drop_first()),
        }
    }
}

/// The name of the file's first `module` declaration.
pub fn module_name_of(file: &SourceFile) -> (out: Option<String>)
    ensures
        out matches Some(n) ==> first_module(file.items@) == Some(n@),
        out is None ==> first_module(file.items@) is None,
{
    let mut i: usize = 0;
    assert(file.items@.skip(0) =~= file.items@);
    while i < file.items.len()
        invariant
            i <= file.items.len(),
            first_module(file.items@) == first_module(file.items@.skip(i as int)),
        decreases file.items.len() - i,
    {
        proof {
            let rest = file.items@.skip(i as int);
            assert(rest[0] == file.items@[i as int]);
            assert(rest.drop_first() =~= file.items@.skip(i + 1));
        }
        if let Item::Module(module) = &file.items[i] {
            return Some(module.name.node.clone());
        }
        i += 1;
    }
    assert(file.items@.skip(i as int).len() == 0);
    None
}

/// `(load-file "PATH")`.
pub fn load_form(clj_path: &str) -> (out: String)
    ensures
        out@ == "(load-file "@ + quoted_spec(clj_path@) + ")"@,
{
    let q = quoted(clj_path);
    let mut out = owned("(load-file ");
    out.push_str(q.as_str());
    out.push_str(")");
    out
}

/// Points the generated namespace's contract tape at `tape_path`.
pub fn arm_tape_form(module_name: &str, tape_path: &str) -> (out: String)
    ensures
        out@ == "(reset! (deref (resolve (symbol "@ + quoted_spec(module_name@ + "/__rama_tape"@) + "))) "@
            + quoted_spec(tape_path@) + ")"@,
{
    let mut var = owned(module_name);
    var.push_str("/__rama_tape");
    let qv = quoted(var.as_str());
    let qt = quoted(tape_path);
    let mut out = owned("(reset! (deref (resolve (symbol ");
    out.push_str(qv.as_str());
    out.push_str("))) ");
    out.push_str(qt.as_str());
    out.push_str(")");
    out
}

/// A reproduction form whose exceptions are reported, not raised.
pub fn wrapped_eval(form: &str) -> (out: String)
    ensures
        out@ == "(try "@ + form@ + " :__rama-ok (catch Exception __rama-error (.getMessage __rama-error)))"@,
{
    let mut out = owned("(try ");
    out.push_str(form);
    out.push_str(" :__rama-ok (catch Exception __rama-error (.getMessage __rama-error)))");
    out
}

} // verus!
