//! Signatures, typing results, and the class and syntax facts the checker
//! consults.

use vstd::prelude::*;
use crate::ast::{Block, Expr, FnDef, Stmt, ValueTypeExpr};
use crate::error::Diagnostic;
use crate::span::Span;
use crate::text::{chars_of, is_ascii_alnum, is_ascii_alnum_spec, str_eq, string_from, owned};
use crate::types::{TypeId, TypeTable};

verus! {

#[derive(Debug, Clone, Copy, PartialEq, Eq, Structural)]
pub enum SignatureSource {
    Prelude,
    Extern,
    Function,
}

#[derive(Debug)]
pub struct Signature {
    pub name: String,
    pub quantified: Vec<String>,
    pub params: Vec<TypeId>,
    pub ret: TypeId,
    pub span: Span,
    pub source: SignatureSource,
}

/// `after` keeps every diagnostic of `before`, in place, and may add more.
pub open spec fn diags_extend(before: Seq<crate::error::Diagnostic>, after: Seq<crate::error::Diagnostic>) -> bool {
    &&& before.len() <= after.len()
    &&& forall|k: int| 0 <= k < before.len() ==> #[trigger] after[k] == before[k]
}

/// Every id is below `n`.
pub open spec fn ids_below(ids: Seq<TypeId>, n: int) -> bool {
    forall|k: int| 0 <= k < ids.len() ==> (#[trigger] ids[k]).0 < n
}

/// The signature only names types below `n`.
pub open spec fn sig_below(s: Signature, n: int) -> bool {
    ids_below(s.params@, n) && s.ret.0 < n
}

pub fn copy_strings(v: &Vec<String>) -> (out: Vec<String>)
    ensures
        out@ == v@,
{
    let mut out: Vec<String> = Vec::new();
    let mut i: usize = 0;
    while i < v.len()
        invariant
            i <= v.len(),
            out@ == v@.take(i as int),
        decreases v.len() - i,
    {
        out.push(v[i].clone());
        assert(out@ =~= v@.take(i + 1));
        i += 1;
    }
    assert(v@.take(v.len() as int) =~= v@);
    out
}

impl Clone for Signature {
    fn clone(&self) -> (out: Self)
        ensures
            out.name == self.name,
            out.quantified@ == self.quantified@,
            out.params@ == self.params@,
            out.ret == self.ret,
            out.span == self.span,
            out.source == self.source,
    {
        Signature {
            name: self.name.clone(),
            quantified: copy_strings(&self.quantified),
            params: crate::types::copy_ids(&self.params),
            ret: self.ret,
            span: self.span,
            source: self.source,
        }
    }
}

#[derive(Debug)]
pub struct TypedFunction {
    pub params: Vec<(String, TypeId)>,
    pub return_type: TypeId,
    pub has_contract: bool,
}

#[derive(Debug)]
pub struct TypedExtern {
    pub name: String,
    pub target: String,
    pub wrapper_name: String,
    pub signature: Signature,
}

/// What checking a program found: the interned types, the typed functions
/// and extern overloads by name, and the diagnostics.
#[derive(Debug)]
pub struct Typing {
    pub table: TypeTable,
    pub functions: Vec<(String, TypedFunction)>,
    pub externs: Vec<(String, Vec<TypedExtern>)>,
    pub diagnostics: Vec<Diagnostic>,
}

/// The typed function entry for `name`, if any.
pub open spec fn has_function(functions: Seq<(String, TypedFunction)>, name: Seq<char>) -> bool {
    exists|i: int| 0 <= i < functions.len() && (#[trigger] functions[i]).0@ == name
}

/// The first typed function entry named `name`.
pub open spec fn function_lookup(functions: Seq<(String, TypedFunction)>, name: Seq<char>) -> Option<TypedFunction>
    decreases functions.len(),
{
    if functions.len() == 0 {
        None
    } else if functions[0].0@ == name {
        Some(functions[0].1)
    } else {
        function_lookup(functions.skip(1), name)
    }
}

/// No name occurs twice among the entries.
pub open spec fn names_unique<V>(entries: Seq<(String, V)>) -> bool {
    forall|i: int, j: int| 0 <= i < j < entries.len() ==> (#[trigger] entries[i]).0@ != (#[trigger] entries[j]).0@
}

impl Typing {
    /// Every id the result holds names a type of its table, and each
    /// function and extern name has one entry.
    pub open spec fn wf(&self) -> bool {
        let n = self.table@.len() as int;
        &&& forall|i: int| 0 <= i < self.functions@.len() ==> {
            let f = (#[trigger] self.functions@[i]).1;
            f.return_type.0 < n && forall|k: int| 0 <= k < f.params@.len() ==> (#[trigger] f.params@[k]).1.0 < n
        }
        &&& forall|i: int, j: int| 0 <= i < self.externs@.len() && 0 <= j < self.externs@[i].1@.len()
            ==> sig_below(#[trigger] self.externs@[i].1@[j].signature, n)
        &&& names_unique(self.functions@)
        &&& names_unique(self.externs@)
        &&& forall|k: int| 0 <= k < self.diagnostics@.len() ==> (#[trigger] self.diagnostics@[k]).kind
            == crate::error::DiagnosticKind::Type
    }

    pub fn new() -> (out: Self)
        ensures
            out.table@.len() == 0,
            out.functions@.len() == 0,
            out.externs@.len() == 0,
            out.diagnostics@.len() == 0,
            out.wf(),
    {
        Typing { table: TypeTable::new(), functions: Vec::new(), externs: Vec::new(), diagnostics: Vec::new() }
    }

    /// Records the typed function `name`, replacing an earlier entry.
    pub fn set_function(&mut self, name: String, function: TypedFunction)
        requires
            old(self).wf(),
            function.return_type.0 < old(self).table@.len(),
            forall|k: int| 0 <= k < function.params@.len() ==> (#[trigger] function.params@[k]).1.0 < old(self).table@.len(),
        ensures
            final(self).wf(),
            final(self).table == old(self).table,
            final(self).externs == old(self).externs,
            final(self).diagnostics == old(self).diagnostics,
            has_function(final(self).functions@, name@),
            forall|n: Seq<char>| has_function(old(self).functions@, n) ==> has_function(final(self).functions@, n),
    {
        let ghost nm = name@;
        match find_name(&self.functions, name.as_str()) {
            Some(i) => {
                let ghost before = self.functions@;
                self.functions.remove(i);
                self.functions.insert(i, (name, function));
                proof {
                    assert(self.functions@ =~= before.update(i as int, self.functions@[i as int]));
                    assert(self.functions@[i as int].0@ == nm);
                    assert forall|n: Seq<char>| has_function(before, n) implies has_function(self.functions@, n) by {
                        let k = choose|k: int| 0 <= k < before.len() && (#[trigger] before[k]).0@ == n;
                        if k == i as int {
                            assert(self.functions@[k].0@ == n);
                        } else {
                            assert(self.functions@[k] == before[k]);
                        }
                    }
                }
            }
            None => {
                let ghost before = self.functions@;
                self.functions.push((name, function));
                proof {
                    assert(self.functions@[before.len() as int].0@ == nm);
                    assert forall|n: Seq<char>| has_function(before, n) implies has_function(self.functions@, n) by {
                        let k = choose|k: int| 0 <= k < before.len() && (#[trigger] before[k]).0@ == n;
                        assert(self.functions@[k] == before[k]);
                    }
                }
            }
        }
    }

    /// Adds an overload under the extern's name, after the earlier ones.
    pub fn add_extern(&mut self, typed: TypedExtern)
        requires
            old(self).wf(),
            sig_below(typed.signature, old(self).table@.len() as int),
        ensures
            final(self).wf(),
            final(self).table == old(self).table,
            final(self).functions == old(self).functions,
            final(self).diagnostics == old(self).diagnostics,
            (exists|i: int| 0 <= i < old(self).externs@.len() && (#[trigger] old(self).externs@[i]).0@ == typed.name@) ==> exists|i: int|
                0 <= i < old(self).externs@.len() && (#[trigger] old(self).externs@[i]).0@ == typed.name@
                    && final(self).externs@ == old(self).externs@.update(i, (old(self).externs@[i].0, final(self).externs@[i].1))
                    && final(self).externs@[i].1@ == old(self).externs@[i].1@.push(typed),
            !(exists|i: int| 0 <= i < old(self).externs@.len() && (#[trigger] old(self).externs@[i]).0@ == typed.name@) ==> final(self).externs@.drop_last() == old(self).externs@ && final(self).externs@.len() == old(self).externs@.len() + 1
                && final(self).externs@.last().0@ == typed.name@ && final(self).externs@.last().1@ == seq![typed],
    {
        match find_name(&self.externs, typed.name.as_str()) {
            Some(i) => {
                let ghost before = self.externs@;
                let (name, mut group) = self.externs.remove(i);
                let ghost old_group = group@;
                group.push(typed);
                self.externs.insert(i, (name, group));
                proof {
                    assert(before[i as int].0@ == typed.name@);
                    assert(self.externs@ =~= before.update(i as int, self.externs@[i as int]));
                    assert(self.externs@[i as int].0 == before[i as int].0);
                    assert(self.externs@[i as int].1@ == old_group.push(typed));
                    assert forall|j: int| 0 <= j < self.externs@[i as int].1@.len() implies
                        sig_below(#[trigger] self.externs@[i as int].1@[j].signature, self.table@.len() as int) by {
                        if j < old_group.len() {
                            assert(self.externs@[i as int].1@[j] == before[i as int].1@[j]);
                        }
                    }
                }
            }
            None => {
                let name = typed.name.clone();
                assert(name@ == typed.name@);
                let ghost before = self.externs@;
                let group = vec![typed];
                assert(group@ =~= seq![typed]);
                self.externs.push((name, group));
                assert(self.externs@.drop_last() =~= before);
            }
        }
    }

    /// The typed function named `name`.
    pub fn function(&self, name: &str) -> (out: Option<&TypedFunction>)
        ensures
            out is Some <==> has_function(self.functions@, name@),
            out matches Some(f) ==> exists|i: int| 0 <= i < self.functions@.len()
                && self.functions@[i].0@ == name@ && self.functions@[i].1 == *f,
            match out {
                Some(f) => function_lookup(self.functions@, name@) == Some(*f),
                None => function_lookup(self.functions@, name@) is None,
            },
    {
        let mut i: usize = 0;
        assert(self.functions@.skip(0) =~= self.functions@);
        while i < self.functions.len()
            invariant
                i <= self.functions.len(),
                forall|j: int| 0 <= j < i ==> self.functions@[j].0@ != name@,
                function_lookup(self.functions@, name@) == function_lookup(self.functions@.skip(i as int), name@),
            decreases self.functions.len() - i,
        {
            assert(self.functions@.skip(i as int)[0] == self.functions@[i as int]);
            if str_eq(self.functions[i].0.as_str(), name) {
                return Some(&self.functions[i].1);
            }
            assert(self.functions@.skip(i as int).skip(1) =~= self.functions@.skip(i + 1));
            i += 1;
        }
        None
    }

    /// The extern overloads declared under `name`, in declaration order.
    pub fn extern_overloads(&self, name: &str) -> (out: Option<&Vec<TypedExtern>>)
        ensures
            out is Some <==> exists|i: int| 0 <= i < self.externs@.len() && (#[trigger] self.externs@[i]).0@ == name@,
            out matches Some(v) ==> exists|i: int| 0 <= i < self.externs@.len()
                && self.externs@[i].0@ == name@ && self.externs@[i].1 == *v,
    {
        let mut i: usize = 0;
        while i < self.externs.len()
            invariant
                i <= self.externs.len(),
                forall|j: int| 0 <= j < i ==> self.externs@[j].0@ != name@,
            decreases self.externs.len() - i,
        {
            if str_eq(self.externs[i].0.as_str(), name) {
                return Some(&self.externs[i].1);
            }
            i += 1;
        }
        None
    }
}

/// Where the entry named `name` stands.
pub fn find_name<V>(entries: &Vec<(String, V)>, name: &str) -> (out: Option<usize>)
    ensures
        out matches Some(i) ==> i < entries@.len() && entries@[i as int].0@ == name@,
        out is None ==> forall|j: int| 0 <= j < entries@.len() ==> (#[trigger] entries@[j]).0@ != name@,
{
    let mut i: usize = 0;
    while i < entries.len()
        invariant
            i <= entries.len(),
            forall|j: int| 0 <= j < i ==> (#[trigger] entries@[j]).0@ != name@,
        decreases entries.len() - i,
    {
        if str_eq(entries[i].0.as_str(), name) {
            return Some(i);
        }
        i += 1;
    }
    None
}

/// Live knowledge of the JVM class hierarchy and of the Clojure vars a
/// name may refer to.
pub trait TypeOracle {
    fn is_assignable(&self, actual: &str, expected: &str) -> Option<bool>;

    fn extern_suggestions(&self, name: &str) -> Vec<String>;
}

/// The oracle that knows nothing.
pub struct NoOracle;

impl TypeOracle for NoOracle {
    fn is_assignable(&self, actual: &str, expected: &str) -> Option<bool> {
        None
    }

    fn extern_suggestions(&self, name: &str) -> Vec<String> {
        Vec::new()
    }
}

/// Built-in subclass facts used when no oracle answers.
pub open spec fn bootstrap_spec(actual: Seq<char>, expected: Seq<char>) -> bool {
    actual == expected || expected == "java.lang.Object"@
        || (actual == "java.lang.Long"@ && expected == "java.lang.Number"@)
        || (actual == "java.lang.Integer"@ && expected == "java.lang.Number"@)
        || (actual == "java.util.List"@ && expected == "java.util.Collection"@)
        || (actual == "java.util.Set"@ && expected == "java.util.Collection"@)
        || (actual == "java.util.List"@ && expected == "java.lang.Iterable"@)
        || (actual == "java.util.Set"@ && expected == "java.lang.Iterable"@)
        || (actual == "java.util.Collection"@ && expected == "java.lang.Iterable"@)
        || (actual == "clojure.lang.ISeq"@ && expected == "java.lang.Iterable"@)
}

/// JDK facts: the boxed integral types `java.lang.Long` and
/// `java.lang.Integer` extend `java.lang.Number`; `java.util.List` and
/// `java.util.Set` extend `java.util.Collection`, which extends
/// `java.lang.Iterable`; `clojure.lang.ISeq` is `Iterable` too.
pub open spec fn jvm_supertype(actual: Seq<char>, expected: Seq<char>) -> bool {
    ||| (actual == "java.lang.Long"@ || actual == "java.lang.Integer"@) && expected == "java.lang.Number"@
    ||| (actual == "java.util.List"@ || actual == "java.util.Set"@) && (expected == "java.util.Collection"@
        || expected == "java.lang.Iterable"@)
    ||| actual == "java.util.Collection"@ && expected == "java.lang.Iterable"@
    ||| actual == "clojure.lang.ISeq"@ && expected == "java.lang.Iterable"@
}

/// Without an oracle, assignability holds of every class to itself and to
/// `java.lang.Object`, and of every class to its JDK supertypes.
pub proof fn law_bootstrap_contains_jdk_facts(actual: Seq<char>, expected: Seq<char>)
    ensures
        bootstrap_spec(actual, actual),
        bootstrap_spec(actual, "java.lang.Object"@),
        jvm_supertype(actual, expected) ==> bootstrap_spec(actual, expected),
{
}

/// Without an oracle, assignability is transitive.
pub proof fn law_bootstrap_transitive(a: Seq<char>, b: Seq<char>, c: Seq<char>)
    requires
        bootstrap_spec(a, b),
        bootstrap_spec(b, c),
    ensures
        bootstrap_spec(a, c),
{
    reveal_strlit("java.lang.Object");
    assert("java.lang.Object"@.len() == 16);
    assert("java.lang.Object"@[0] == 'j');
    assert("java.lang.Object"@[5] == 'l');
    assert("java.lang.Object"@[10] == 'O');
    reveal_strlit("java.lang.Number");
    assert("java.lang.Number"@.len() == 16);
    assert("java.lang.Number"@[0] == 'j');
    assert("java.lang.Number"@[5] == 'l');
    assert("java.lang.Number"@[10] == 'N');
    reveal_strlit("java.lang.Long");
    assert("java.lang.Long"@.len() == 14);
    assert("java.lang.Long"@[0] == 'j');
    assert("java.lang.Long"@[5] == 'l');
    assert("java.lang.Long"@[10] == 'L');
    reveal_strlit("java.lang.Integer");
    assert("java.lang.Integer"@.len() == 17);
    assert("java.lang.Integer"@[0] == 'j');
    assert("java.lang.Integer"@[5] == 'l');
    assert("java.lang.Integer"@[10] == 'I');
    reveal_strlit("java.util.Collection");
    assert("java.util.Collection"@.len() == 20);
    assert("java.util.Collection"@[0] == 'j');
    assert("java.util.Collection"@[5] == 'u');
    assert("java.util.Collection"@[10] == 'C');
    reveal_strlit("java.lang.Iterable");
    assert("java.lang.Iterable"@.len() == 18);
    assert("java.lang.Iterable"@[0] == 'j');
    assert("java.lang.Iterable"@[5] == 'l');
    assert("java.lang.Iterable"@[10] == 'I');
    reveal_strlit("java.util.List");
    assert("java.util.List"@.len() == 14);
    assert("java.util.List"@[0] == 'j');
    assert("java.util.List"@[5] == 'u');
    assert("java.util.List"@[10] == 'L');
    reveal_strlit("java.util.Set");
    assert("java.util.Set"@.len() == 13);
    assert("java.util.Set"@[0] == 'j');
    assert("java.util.Set"@[5] == 'u');
    assert("java.util.Set"@[10] == 'S');
    reveal_strlit("clojure.lang.ISeq");
    assert("clojure.lang.ISeq"@.len() == 17);
    assert("clojure.lang.ISeq"@[0] == 'c');
    assert("clojure.lang.ISeq"@[5] == 'r');
    assert("clojure.lang.ISeq"@[10] == 'n');
}

pub fn bootstrap_assignable(actual: &str, expected: &str) -> (r: bool)
    ensures
        r == bootstrap_spec(actual@, expected@),
{
    if str_eq(actual, expected) || str_eq(expected, "java.lang.Object") {
        return true;
    }
    (str_eq(actual, "java.lang.Long") && str_eq(expected, "java.lang.Number"))
        || (str_eq(actual, "java.lang.Integer") && str_eq(expected, "java.lang.Number"))
        || (str_eq(actual, "java.util.List") && str_eq(expected, "java.util.Collection"))
        || (str_eq(actual, "java.util.Set") && str_eq(expected, "java.util.Collection"))
        || (str_eq(actual, "java.util.List") && str_eq(expected, "java.lang.Iterable"))
        || (str_eq(actual, "java.util.Set") && str_eq(expected, "java.lang.Iterable"))
        || (str_eq(actual, "java.util.Collection") && str_eq(expected, "java.lang.Iterable"))
        || (str_eq(actual, "clojure.lang.ISeq") && str_eq(expected, "java.lang.Iterable"))
}

/// The short names that resolve to a JVM class.
pub open spec fn builtin_alias_spec(path: Seq<char>) -> bool {
    path == "String"@ || path == "Long"@ || path == "Int"@ || path == "Integer"@ || path == "Boolean"@
        || path == "Object"@ || path == "Number"@ || path == "List"@ || path == "Set"@ || path == "Map"@
}

pub fn is_builtin_alias(path: &str) -> (r: bool)
    ensures
        r == builtin_alias_spec(path@),
{
    str_eq(path, "String") || str_eq(path, "Long") || str_eq(path, "Int") || str_eq(path, "Integer")
        || str_eq(path, "Boolean") || str_eq(path, "Object") || str_eq(path, "Number") || str_eq(path, "List")
        || str_eq(path, "Set") || str_eq(path, "Map")
}

/// How many type arguments a known generic class takes.
pub open spec fn generic_arity_spec(class: Seq<char>) -> Option<usize> {
    if class == "java.util.List"@ || class == "java.util.Set"@ || class == "java.util.Collection"@
        || class == "java.lang.Iterable"@ || class == "clojure.lang.ISeq"@ {
        Some(1)
    } else if class == "java.util.Map"@ {
        Some(2)
    } else {
        None
    }
}

pub fn generic_arity(class: &str) -> (out: Option<usize>)
    ensures
        out == generic_arity_spec(class@),
{
    if str_eq(class, "java.util.List") || str_eq(class, "java.util.Set") || str_eq(class, "java.util.Collection")
        || str_eq(class, "java.lang.Iterable") || str_eq(class, "clojure.lang.ISeq") {
        Some(1)
    } else if str_eq(class, "java.util.Map") {
        Some(2)
    } else {
        None
    }
}

/// `c` kept when it may stand in a Clojure symbol suffix, else `_`.
pub open spec fn sanitize_char(c: char) -> char {
    if is_ascii_alnum_spec(c) || c == '_' { c } else { '_' }
}

pub fn sanitize(name: &str) -> (out: String)
    ensures
        out@ == name@.map_values(|c: char| sanitize_char(c)),
{
    let cs = chars_of(name);
    let mut out: Vec<char> = Vec::new();
    let mut i: usize = 0;
    while i < cs.len()
        invariant
            i <= cs.len(),
            cs@ == name@,
            out@ == cs@.take(i as int).map_values(|c: char| sanitize_char(c)),
        decreases cs.len() - i,
    {
        let c = cs[i];
        let d = if is_ascii_alnum(c) || c == '_' { c } else { '_' };
        out.push(d);
        assert(cs@.take(i + 1).map_values(|c: char| sanitize_char(c)) =~= cs@.take(i as int).map_values(|c: char| sanitize_char(c)).push(d));
        i += 1;
    }
    assert(cs@.take(cs.len() as int) =~= cs@);
    string_from(out.as_slice())
}

/// Whether an `as` cast occurs anywhere in the expression.
pub open spec fn expr_has_cast(e: Expr) -> bool
    decreases e,
{
    match e {
        Expr::As { .. } => true,
        Expr::Call(c) => exprs_have_cast(c.args@),
        Expr::List { elems, .. } => exprs_have_cast(elems@),
        Expr::MapLit { entries, .. } => entries_have_cast(entries@),
        Expr::Binary { left, right, .. } => expr_has_cast(*left) || expr_has_cast(*right),
        Expr::Ternary { cond, then_branch, else_branch, .. } => expr_has_cast(*cond) || expr_has_cast(*then_branch)
            || expr_has_cast(*else_branch),
        _ => false,
    }
}

pub open spec fn exprs_have_cast(es: Seq<Expr>) -> bool
    decreases es,
{
    if es.len() == 0 {
        false
    } else {
        expr_has_cast(es[0]) || exprs_have_cast(es.subrange(1, es.len() as int))
    }
}

pub open spec fn entries_have_cast(es: Seq<crate::ast::MapEntry>) -> bool
    decreases es,
{
    if es.len() == 0 {
        false
    } else {
        expr_has_cast(es[0].key) || (match es[0].value {
            Some(v) => expr_has_cast(v),
            None => false,
        }) || entries_have_cast(es.subrange(1, es.len() as int))
    }
}

/// Whether an `as` cast occurs anywhere in the statements.
pub open spec fn stmts_have_cast(ss: Seq<Stmt>) -> bool
    decreases ss,
{
    if ss.len() == 0 {
        false
    } else {
        stmt_has_cast(ss[0]) || stmts_have_cast(ss.subrange(1, ss.len() as int))
    }
}

pub open spec fn stmt_has_cast(s: Stmt) -> bool
    decreases s,
{
    match s {
        Stmt::Let { value, .. } => expr_has_cast(value),
        Stmt::Return { value, .. } => expr_has_cast(value),
        Stmt::Effect { value, .. } => expr_has_cast(value),
        Stmt::Select { path, .. } => exprs_have_cast(path@),
        Stmt::Transform { path, .. } => exprs_have_cast(path@),
        Stmt::Fail { value, condition, .. } => expr_has_cast(value) || expr_has_cast(condition),
        Stmt::Hash { key, .. } => expr_has_cast(key),
        Stmt::If { condition, consequence, alternative, .. } => expr_has_cast(condition)
            || stmts_have_cast(consequence.stmts@) || (match alternative {
            Some(b) => stmts_have_cast(b.stmts@),
            None => false,
        }),
    }
}

#[verifier::loop_isolation(false)]
pub fn expr_contains_cast(expr: &Expr) -> (r: bool)
    ensures
        r == expr_has_cast(*expr),
    decreases expr,
{
    match expr {
        Expr::As { .. } => true,
        Expr::Call(call) => exprs_contain_cast(&call.args),
        Expr::List { elems, .. } => exprs_contain_cast(elems),
        Expr::MapLit { entries, .. } => {
            let mut i: usize = 0;
            assert(entries@.subrange(0, entries@.len() as int) =~= entries@);
            while i < entries.len()
                invariant
                    i <= entries.len(),
                    entries_have_cast(entries@) == entries_have_cast(entries@.subrange(i as int, entries@.len() as int)),
                decreases entries.len() - i,
            {
                let ghost rest = entries@.subrange(i as int, entries@.len() as int);
                assert(rest.subrange(1, rest.len() as int) =~= entries@.subrange(i + 1, entries@.len() as int));
                assert(rest[0] == entries@[i as int]);
                let found = expr_contains_cast(&entries[i].key) || match &entries[i].value {
                    Some(v) => expr_contains_cast(v),
                    None => false,
                };
                if found {
                    return true;
                }
                i += 1;
            }
            assert(entries@.subrange(i as int, entries@.len() as int).len() == 0);
            false
        }
        Expr::Binary { left, right, .. } => expr_contains_cast(left) || expr_contains_cast(right),
        Expr::Ternary { cond, then_branch, else_branch, .. } => expr_contains_cast(cond)
            || expr_contains_cast(then_branch) || expr_contains_cast(else_branch),
        Expr::String(_) | Expr::Keyword(_) | Expr::Ident(_) | Expr::Int(_) | Expr::Bool(_) => false,
    }
}

#[verifier::loop_isolation(false)]
pub fn exprs_contain_cast(exprs: &Vec<Expr>) -> (r: bool)
    ensures
        r == exprs_have_cast(exprs@),
    decreases exprs,
{
    let mut i: usize = 0;
    assert(exprs@.subrange(0, exprs@.len() as int) =~= exprs@);
    while i < exprs.len()
        invariant
            i <= exprs.len(),
            exprs_have_cast(exprs@) == exprs_have_cast(exprs@.subrange(i as int, exprs@.len() as int)),
        decreases exprs.len() - i,
    {
        let ghost rest = exprs@.subrange(i as int, exprs@.len() as int);
        assert(rest.subrange(1, rest.len() as int) =~= exprs@.subrange(i + 1, exprs@.len() as int));
        assert(rest[0] == exprs@[i as int]);
        if expr_contains_cast(&exprs[i]) {
            return true;
        }
        i += 1;
    }
    assert(exprs@.subrange(i as int, exprs@.len() as int).len() == 0);
    false
}

#[verifier::loop_isolation(false)]
pub fn block_contains_cast(block: &Block) -> (r: bool)
    ensures
        r == stmts_have_cast(block.stmts@),
    decreases block,
{
    let mut i: usize = 0;
    assert(block.stmts@.subrange(0, block.stmts@.len() as int) =~= block.stmts@);
    while i < block.stmts.len()
        invariant
            i <= block.stmts.len(),
            stmts_have_cast(block.stmts@) == stmts_have_cast(block.stmts@.subrange(i as int, block.stmts@.len() as int)),
        decreases block.stmts.len() - i,
    {
        let ghost rest = block.stmts@.subrange(i as int, block.stmts@.len() as int);
        assert(rest.subrange(1, rest.len() as int) =~= block.stmts@.subrange(i + 1, block.stmts@.len() as int));
        assert(rest[0] == block.stmts@[i as int]);
        let found = match &block.stmts[i] {
            Stmt::Let { value, .. } | Stmt::Return { value, .. } | Stmt::Effect { value, .. } => expr_contains_cast(value),
            Stmt::Select { path, .. } | Stmt::Transform { path, .. } => exprs_contain_cast(path),
            Stmt::Fail { value, condition, .. } => expr_contains_cast(value) || expr_contains_cast(condition),
            Stmt::Hash { key, .. } => expr_contains_cast(key),
            Stmt::If { condition, consequence, alternative, .. } => expr_contains_cast(condition)
                || block_contains_cast(consequence) || match alternative {
                Some(b) => block_contains_cast(b),
                None => false,
            },
        };
        assert(found == stmt_has_cast(block.stmts@[i as int]));
        if found {
            return true;
        }
        i += 1;
    }
    assert(block.stmts@.subrange(i as int, block.stmts@.len() as int).len() == 0);
    false
}

/// A `fn` is typed when it annotates its return or a parameter, or casts.
pub open spec fn typed_function_spec(function: FnDef) -> bool {
    function.return_ty is Some
        || (exists|i: int| 0 <= i < function.params@.len() && (#[trigger] function.params@[i]).ty is Some)
        || stmts_have_cast(function.body.stmts@)
}

pub fn is_typed_function(function: &FnDef) -> (r: bool)
    ensures
        r == typed_function_spec(*function),
{
    if function.return_ty.is_some() {
        return true;
    }
    let mut i: usize = 0;
    while i < function.params.len()
        invariant
            i <= function.params.len(),
            forall|j: int| 0 <= j < i ==> function.params@[j].ty is None,
        decreases function.params.len() - i,
    {
        if function.params[i].ty.is_some() {
            return true;
        }
        i += 1;
    }
    block_contains_cast(&function.body)
}

/// The gradual keywords name their own types; any other name is a class
/// without arguments.
pub open spec fn simple_is_keyword(name: Seq<char>, out: ValueTypeExpr) -> bool {
    if name == "Nil"@ {
        out == ValueTypeExpr::Nil
    } else if name == "Unknown"@ {
        out == ValueTypeExpr::Unknown
    } else if name == "Dynamic"@ {
        out == ValueTypeExpr::Dynamic
    } else if name == "Any"@ {
        out == ValueTypeExpr::Any
    } else if name == "Never"@ {
        out == ValueTypeExpr::Never
    } else {
        out matches ValueTypeExpr::Named { path, args } && path@ == name && args@.len() == 0
    }
}

pub fn simple(name: &str) -> (out: ValueTypeExpr)
    ensures
        simple_is_keyword(name@, out),
{
    if str_eq(name, "Nil") {
        ValueTypeExpr::Nil
    } else if str_eq(name, "Unknown") {
        ValueTypeExpr::Unknown
    } else if str_eq(name, "Dynamic") {
        ValueTypeExpr::Dynamic
    } else if str_eq(name, "Any") {
        ValueTypeExpr::Any
    } else if str_eq(name, "Never") {
        ValueTypeExpr::Never
    } else {
        ValueTypeExpr::Named { path: owned(name), args: Vec::new() }
    }
}

pub fn var(name: &str) -> (out: ValueTypeExpr)
    ensures
        out matches ValueTypeExpr::Named { path, args } && path@ == name@ && args@.len() == 0,
{
    ValueTypeExpr::Named { path: owned(name), args: Vec::new() }
}

pub fn generic(name: &str, args: Vec<ValueTypeExpr>) -> (out: ValueTypeExpr)
    ensures
        out == (ValueTypeExpr::Named { path: out->path, args }),
        out->path@ == name@,
{
    ValueTypeExpr::Named { path: owned(name), args }
}

pub fn function(params: Vec<ValueTypeExpr>, ret: ValueTypeExpr) -> (out: ValueTypeExpr)
    ensures
        out == (ValueTypeExpr::Function { params, ret: Box::new(ret) }),
{
    ValueTypeExpr::Function { params, ret: Box::new(ret) }
}

pub fn capability(name: &str, args: Vec<ValueTypeExpr>) -> (out: ValueTypeExpr)
    ensures
        out == (ValueTypeExpr::Capability { name: out->name, args }),
        out->name@ == name@,
{
    ValueTypeExpr::Capability { name: owned(name), args }
}

pub fn union(members: Vec<ValueTypeExpr>) -> (out: ValueTypeExpr)
    ensures
        out == ValueTypeExpr::Union(members),
{
    ValueTypeExpr::Union(members)
}

} // verus!
