use cljrs_compiler::aot::split_program;
use cljrs_compiler::form::{copy_form, Form, FormKind};
use cljrs_compiler::ir::Span;
use cljrs_compiler::source::{collect_symbols, expand_reader_cond_form, expand_reader_conds_deep, expanded_needs_interpreter, is_def_form, is_interpreter_only_sym, needs_interpreter, or_nil, outer_anon_fns, partition, qualify_aliases, replace_anon_fns, sorted_pins, symbols};
use cljrs_compiler::text::less_text;

/// A place in a test.
fn span() -> Span {
    Span { file: "<test>".to_string(), start: 0, end: 0, line: 1, col: 1 }
}

fn form(kind: FormKind) -> Form {
    Form { kind, span: span() }
}

/// Splits a text into brackets and words.
fn words(src: &str) -> Vec<String> {
    let mut out: Vec<String> = Vec::new();
    let mut word = String::new();
    for c in src.chars() {
        if c == ' ' || "()[]{}".contains(c) {
            if !word.is_empty() {
                out.push(std::mem::take(&mut word));
            }
            if c != ' ' {
                out.push(c.to_string());
            }
        } else {
            word.push(c);
        }
    }
    if !word.is_empty() {
        out.push(word);
    }
    out
}

fn read_until(words: &[String], at: &mut usize, end: &str) -> Vec<Form> {
    let mut out = Vec::new();
    while words[*at] != end {
        out.push(read(words, at));
    }
    *at += 1;
    out
}

fn read(words: &[String], at: &mut usize) -> Form {
    let word = words[*at].clone();
    *at += 1;
    if word == "(" {
        return form(FormKind::List(read_until(words, at, ")")));
    }
    if word == "[" {
        return form(FormKind::Vector(read_until(words, at, "]")));
    }
    if word == "{" {
        return form(FormKind::Dict(read_until(words, at, "}")));
    }
    if let Ok(n) = word.parse::<i64>() {
        return form(FormKind::Int(n));
    }
    if word.contains('.') {
        if let Ok(x) = word.parse::<f64>() {
            return form(FormKind::Float(x.to_bits()));
        }
    }
    if word == "nil" {
        return form(FormKind::Nil);
    }
    if word == "true" || word == "false" {
        return form(FormKind::Bool(word == "true"));
    }
    match word.strip_prefix(':') {
        Some(name) => form(FormKind::Keyword(name.to_string())),
        None => form(FormKind::Symbol(word)),
    }
}

/// Reads one form.
fn parse(src: &str) -> Form {
    read(&words(src), &mut 0)
}

fn parse_body(src: &str) -> Vec<Form> {
    vec![parse(src)]
}

fn shows(f: &Form) -> String {
    match &f.kind {
        FormKind::Symbol(t) => t.clone(),
        FormKind::Keyword(t) => format!(":{t}"),
        FormKind::Int(n) => format!("{n}"),
        FormKind::Nil => "nil".to_string(),
        FormKind::List(fs) => format!("({})", all(fs)),
        FormKind::Vector(fs) => format!("[{}]", all(fs)),
        FormKind::AnonFn(fs) => format!("#({})", all(fs)),
        other => format!("{other:?}"),
    }
}

fn all(fs: &[Form]) -> String {
    fs.iter().map(shows).collect::<Vec<String>>().join(" ")
}

fn conditional(splicing: bool, clauses: &str) -> Form {
    let FormKind::Vector(fs) = parse(clauses).kind else { panic!("expected clauses") };
    let branch = (0..fs.len() / 2).find(|i| matches!(&fs[2 * i].kind, FormKind::Keyword(k) if k == "rust" || k == "default")).map(|i| 2 * i + 1);
    let items = match branch.map(|k| (splicing, copy_form(&fs[k]))) {
        Some((true, Form { kind: FormKind::Vector(xs), .. })) => xs,
        Some((_, x)) => vec![x],
        None => Vec::new(),
    };
    form(FormKind::ReaderCond(splicing, fs, branch, items))
}

#[test]
fn definitions_and_module_forms_are_told_apart() {
    assert!(is_def_form(&parse("(defn f [] 1)")));
    assert!(!is_def_form(&parse("(println 1)")));
    assert!(needs_interpreter(&parse("(ns my.app)")));
    assert!(!needs_interpreter(&parse("(println 1)")));
    assert!(is_interpreter_only_sym("clojure.core/alter-meta!"));
    assert!(!is_interpreter_only_sym("meta"));
    assert!(expanded_needs_interpreter(&parse("(do (def x 1) (alter-meta! x))")));
    assert!(expanded_needs_interpreter(&parse("[{1 (await x)}]")));
    assert!(expanded_needs_interpreter(&parse("(let [] (async-spawn x))")));
    assert!(!expanded_needs_interpreter(&parse("(+ 1 2)")));
}

#[test]
fn every_form_is_interpreted_or_compiled() {
    let forms = vec![parse("(ns a)"), parse("(def x 1)"), parse("(+ x 1)")];
    let expanded = vec![parse("(ns a)"), parse("(def x 1)"), parse("(+ x 1)")];
    let (interpreted, compiled) = partition(&forms, &expanded);
    assert_eq!(interpreted.len() + compiled.len(), 3);
    assert!(interpreted.contains(&0));
    assert!(compiled.contains(&2));
}

#[test]
fn an_empty_program_is_nil() {
    assert_eq!(all(&or_nil(Vec::new())), "nil");
    assert_eq!(all(&or_nil(vec![parse("1")])), "1");
}

#[test]
fn pinned_names_are_collected_and_sorted() {
    let forms = vec![parse("(f b/x@c2 (g a/y@c1) z)")];
    let mut out: Vec<String> = Vec::new();
    collect_symbols(&forms[0], &mut out);
    assert_eq!(out, vec!["f", "b/x@c2", "g", "a/y@c1", "z"]);
    assert_eq!(symbols(&forms), out);
    let found = out
        .iter()
        .chain(out.iter())
        .map(|s| s.split_once('@').map(|(base, commit)| (base.split_once('/').map(|(ns, _)| ns.to_string()), commit.to_string())))
        .collect();
    let pins = sorted_pins(found);
    assert_eq!(pins.len(), 2);
    assert_eq!(pins[0], (Some("a".to_string()), "c1".to_string()));
    assert_eq!(pins[1], (Some("b".to_string()), "c2".to_string()));
}

#[test]
fn a_reader_conditional_becomes_its_branch() {
    assert_eq!(shows(&expand_reader_cond_form(&conditional(false, "[:clj 1 :rust 2 :default 3]"))), "2");
    assert_eq!(shows(&expand_reader_cond_form(&conditional(false, "[:clj 1 :default 3]"))), "3");
    let spliced = vec![parse("0"), conditional(true, "[:rust [1 2]]"), parse("3")];
    assert_eq!(all(&expand_reader_conds_deep(&spliced)), "0 1 2 3");
    let nothing = vec![conditional(false, "[:clj 1]"), parse("3")];
    assert_eq!(all(&expand_reader_conds_deep(&nothing)), "3");
}

#[test]
fn aliases_become_namespaces() {
    let aliases = vec![("s".to_string(), "clojure.string".to_string())];
    assert_eq!(shows(&qualify_aliases(&parse("(s/join [s/x y])"), &aliases)), "(clojure.string/join [clojure.string/x y])");
    assert_eq!(shows(&qualify_aliases(&parse("(t/join s)"), &aliases)), "(t/join s)");
}

#[test]
fn short_functions_are_replaced_in_order() {
    let inner = form(FormKind::AnonFn(vec![parse("f"), parse("1")]));
    let other = form(FormKind::AnonFn(vec![parse("g")]));
    let whole = form(FormKind::List(vec![parse("map"), inner, form(FormKind::Vector(vec![other]))]));
    let mut found: Vec<Form> = Vec::new();
    outer_anon_fns(&whole, &mut found);
    assert_eq!(found.len(), 2);
    assert_eq!(shows(&found[0]), "#(f 1)");
    let given = vec![parse("(fn [] (f 1))"), parse("(fn [] (g))")];
    assert_eq!(shows(&replace_anon_fns(&whole, &given)), "(map (fn [] (f 1)) [(fn [] (g))])");
}

#[test]
fn quoted_data_keeps_its_names() {
    let aliases = vec![("s".to_string(), "clojure.string".to_string())];
    assert_eq!(shows(&qualify_aliases(&parse("(f (quote (s/x y)) s/x)"), &aliases)), "(f (quote (s/x y)) clojure.string/x)");
}

#[test]
fn a_program_is_split_into_a_preamble_and_a_body() {
    let forms = || vec![parse("(ns a)"), parse("(map f x)"), parse("(def y (await x))"), parse("s/z")];
    let mut expanded = forms();
    expanded[1] = form(FormKind::List(vec![parse("map"), form(FormKind::AnonFn(vec![parse("s/f")])), parse("x")]));
    let texts: Vec<String> = ["(ns a)", "(map f x)", "(def y (await x))", "s/z"].iter().map(|t| t.to_string()).collect();
    let anon = vec![Vec::new(), vec![parse("(fn [] (s/f))")], Vec::new(), Vec::new()];
    let aliases = vec![("s".to_string(), "lib".to_string())];
    let (preamble, body) = split_program(&forms(), &expanded, &texts, &anon, &aliases);
    assert_eq!(preamble, "(ns a)\n(def y (await x))\n");
    assert_eq!(all(&body), "(map (fn [] (lib/f)) x) lib/z");
}

#[test]
fn without_aliases_nothing_changes() {
    let f = parse("(s/join [s/x y] (let [z 1] z))");
    assert_eq!(shows(&qualify_aliases(&f, &vec![])), shows(&f));
    // A form without short functions or conditionals stays as it is.
    assert_eq!(shows(&replace_anon_fns(&f, &vec![])), shows(&f));
    assert_eq!(shows(&expand_reader_cond_form(&f)), shows(&f));
}

#[test]
fn replacing_short_functions_by_themselves_changes_nothing() {
    let f = form(FormKind::List(vec![parse("map"), form(FormKind::AnonFn(vec![parse("f")])), parse("xs")]));
    let mut found: Vec<Form> = Vec::new();
    outer_anon_fns(&f, &mut found);
    assert_eq!(shows(&replace_anon_fns(&f, &found)), shows(&f));
}

#[test]
fn texts_are_ordered_by_their_characters() {
    assert!(less_text("a", "b"));
    assert!(less_text("a", "ab"));
    assert!(!less_text("b", "a"));
    assert!(!less_text("a", "a"));
    assert!(less_text("", "a"));
}
