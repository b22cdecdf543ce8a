//! The emit collector: runs the configured emitters, in listed order, over
//! the checked declarations.
//!
//! Two emitters are built in.  `json-schema` writes one JSON document
//! listing the scalar declarations and the qualified operations;
//! `summary` writes one plain-text line per declaration.  Each artifact
//! path is the virtual join of the configured output directory and the
//! emitter-chosen relative path; no OS path normalization is applied.
//! A name that matches no built-in emitter yields a warning diagnostic and
//! does not keep later emitters from running.  The built-in emitters take
//! no arguments; the argument list is handed to each emitter unread.

use vstd::prelude::*;

use crate::model::Diagnostic;
use crate::model::DiagnosticV;
use crate::model::EmittedFile;
use crate::model::EmittedFileV;
use crate::model::Severity;
use crate::model::diag_views;
use crate::model::emitted_views;
use crate::model::string_views;
use crate::syntax::Item;
use crate::syntax::ItemV;
use crate::syntax::item_views;
use crate::text::str_eq;

verus! {

/// The virtual join of the output directory and a relative path: the two
/// texts with a single separator between them, or the relative path alone
/// when the directory is empty.
pub open spec fn join_path(dir: Seq<char>, rel: Seq<char>) -> Seq<char> {
    if dir.len() == 0 {
        rel
    } else {
        dir + "/"@ + rel
    }
}

fn join_path_exec(dir: &str, rel: &str) -> (r: String)
    ensures
        r@ == join_path(dir@, rel@),
{
    if dir.is_empty() {
        String::from_str(rel)
    } else {
        String::from_str(dir).concat("/").concat(rel)
    }
}

/// The names of the scalar declarations, in order.
pub open spec fn scalar_names(items: Seq<ItemV>, p: int) -> Seq<Seq<char>>
    decreases items.len() - p,
{
    if p < 0 || p >= items.len() {
        Seq::empty()
    } else {
        match items[p] {
            ItemV::Scalar { name, .. } => seq![name] + scalar_names(items, p + 1),
            _ => scalar_names(items, p + 1),
        }
    }
}

/// The namespace-qualified names of the operations, in order.
pub open spec fn op_names(items: Seq<ItemV>, p: int) -> Seq<Seq<char>>
    decreases items.len() - p,
{
    if p < 0 || p >= items.len() {
        Seq::empty()
    } else {
        match items[p] {
            ItemV::Op { namespace, name, .. } => seq![namespace + "."@ + name] + op_names(
                items,
                p + 1,
            ),
            _ => op_names(items, p + 1),
        }
    }
}

/// The names quoted and comma-separated, as they stand inside a JSON
/// array.
pub open spec fn quoted_join(names: Seq<Seq<char>>, p: int) -> Seq<char>
    decreases names.len() - p,
{
    if p < 0 || p >= names.len() {
        Seq::empty()
    } else {
        (if p > 0 {
            ","@
        } else {
            Seq::empty()
        }) + "\""@ + names[p] + "\""@ + quoted_join(names, p + 1)
    }
}

/// The JSON document of the `json-schema` emitter.
pub open spec fn json_contents(items: Seq<ItemV>) -> Seq<char> {
    "{\"scalars\":["@ + quoted_join(scalar_names(items, 0), 0) + "],\"operations\":["@
        + quoted_join(op_names(items, 0), 0) + "]}"@
}

/// One line of the `summary` emitter, per declaration.
pub open spec fn summary_line(item: ItemV) -> Seq<char> {
    match item {
        ItemV::Import { path } => "import "@ + path + "\n"@,
        ItemV::Scalar { name, .. } => "scalar "@ + name + "\n"@,
        ItemV::Namespace { name } => "namespace "@ + name + "\n"@,
        ItemV::Op { namespace, name, .. } => "op "@ + namespace + "."@ + name + "\n"@,
    }
}

/// The text of the `summary` emitter.
pub open spec fn summary_contents(items: Seq<ItemV>, p: int) -> Seq<char>
    decreases items.len() - p,
{
    if p < 0 || p >= items.len() {
        Seq::empty()
    } else {
        summary_line(items[p]) + summary_contents(items, p + 1)
    }
}

/// The emitter names the collector knows.
pub open spec fn known_emitter(name: Seq<char>) -> bool {
    name == "json-schema"@ || name == "summary"@
}

/// Every name of the list is a built-in emitter.
pub open spec fn all_known(emitters: Seq<Seq<char>>) -> bool {
    forall|i: int| 0 <= i < emitters.len() ==> known_emitter(#[trigger] emitters[i])
}

/// The artifacts one emitter produces: exactly one file for each built-in
/// emitter, none for an unknown name.
pub open spec fn emitter_files(name: Seq<char>, items: Seq<ItemV>, dir: Seq<char>) -> Seq<
    EmittedFileV,
> {
    if name == "json-schema"@ {
        seq![
            EmittedFileV { path: join_path(dir, "schema.json"@), contents: json_contents(items) },
        ]
    } else if name == "summary"@ {
        seq![
            EmittedFileV {
                path: join_path(dir, "summary.txt"@),
                contents: summary_contents(items, 0),
            },
        ]
    } else {
        Seq::empty()
    }
}

/// The diagnostics one emitter produces: a warning for an unknown name.
pub open spec fn emitter_diags(name: Seq<char>) -> Seq<DiagnosticV> {
    if known_emitter(name) {
        Seq::empty()
    } else {
        seq![
            DiagnosticV { severity: Severity::Warning, message: "unknown emitter: "@ + name },
        ]
    }
}

/// What the collector gathers from the emitters from position `p` on:
/// all artifacts and all diagnostics, each in listed order.
pub open spec fn sp_emit(
    emitters: Seq<Seq<char>>,
    p: int,
    items: Seq<ItemV>,
    dir: Seq<char>,
) -> (Seq<EmittedFileV>, Seq<DiagnosticV>)
    decreases emitters.len() - p,
{
    if p < 0 || p >= emitters.len() {
        (Seq::empty(), Seq::empty())
    } else {
        let rest = sp_emit(emitters, p + 1, items, dir);
        (emitter_files(emitters[p], items, dir) + rest.0, emitter_diags(emitters[p]) + rest.1)
    }
}

/// The scalar names of the declarations, in order.
fn collect_scalar_names(items: &Vec<Item>) -> (r: Vec<String>)
    ensures
        string_views(r@) == scalar_names(item_views(items@), 0),
{
    let ghost iv = item_views(items@);
    let mut out: Vec<String> = Vec::new();
    let mut p: usize = 0;
    proof {
        assert(string_views(out@) + scalar_names(iv, 0) =~= scalar_names(iv, 0));
    }
    while p < items.len()
        invariant
            0 <= p <= items@.len(),
            iv == item_views(items@),
            scalar_names(iv, 0) =~= string_views(out@) + scalar_names(iv, p as int),
        decreases items.len() - p,
    {
        match &items[p] {
            Item::Scalar { name, .. } => {
                let n = name.clone();
                proof {
                    let rest = scalar_names(iv, p as int + 1);
                    assert(scalar_names(iv, p as int) =~= seq![name@] + rest);
                    assert(string_views(out@.push(n)) =~= string_views(out@).push(n@));
                    assert(string_views(out@) + (seq![name@] + rest) =~= string_views(out@.push(n))
                        + rest);
                }
                out.push(n);
            },
            _ => {
            },
        }
        p = p + 1;
    }
    assert(scalar_names(iv, items@.len() as int) =~= Seq::empty());
    assert(string_views(out@) =~= scalar_names(iv, 0));
    out
}

/// The qualified operation names of the declarations, in order.
fn collect_op_names(items: &Vec<Item>) -> (r: Vec<String>)
    ensures
        string_views(r@) == op_names(item_views(items@), 0),
{
    let ghost iv = item_views(items@);
    let mut out: Vec<String> = Vec::new();
    let mut p: usize = 0;
    proof {
        assert(string_views(out@) + op_names(iv, 0) =~= op_names(iv, 0));
    }
    while p < items.len()
        invariant
            0 <= p <= items@.len(),
            iv == item_views(items@),
            op_names(iv, 0) =~= string_views(out@) + op_names(iv, p as int),
        decreases items.len() - p,
    {
        match &items[p] {
            Item::Op { namespace, name, .. } => {
                let n = namespace.clone().concat(".").concat(name.as_str());
                proof {
                    let rest = op_names(iv, p as int + 1);
                    assert(op_names(iv, p as int) =~= seq![namespace@ + "."@ + name@] + rest);
                    assert(string_views(out@.push(n)) =~= string_views(out@).push(n@));
                    assert(string_views(out@) + (seq![n@] + rest) =~= string_views(out@.push(n))
                        + rest);
                }
                out.push(n);
            },
            _ => {
            },
        }
        p = p + 1;
    }
    assert(op_names(iv, items@.len() as int) =~= Seq::empty());
    assert(string_views(out@) =~= op_names(iv, 0));
    out
}

/// Appends the quoted, comma-separated names to `out`.
fn append_quoted_join(out: &mut String, names: &Vec<String>)
    ensures
        final(out)@ == old(out)@ + quoted_join(string_views(names@), 0),
{
    let ghost nv = string_views(names@);
    let ghost base = out@;
    let mut p: usize = 0;
    proof {
        assert(base + Seq::<char>::empty() =~= base);
    }
    while p < names.len()
        invariant
            0 <= p <= names@.len(),
            nv == string_views(names@),
            base + quoted_join(nv, 0) =~= out@ + quoted_join(nv, p as int),
        decreases names.len() - p,
    {
        if p > 0 {
            out.append(",");
        }
        out.append("\"");
        out.append(names[p].as_str());
        out.append("\"");
        proof {
            let rest = quoted_join(nv, p as int + 1);
            assert(nv[p as int] == names@[p as int]@);
            assert(quoted_join(nv, p as int) =~= (if p > 0 {
                ","@
            } else {
                Seq::<char>::empty()
            }) + "\""@ + nv[p as int] + "\""@ + rest);
        }
        p = p + 1;
    }
    assert(quoted_join(nv, names@.len() as int) =~= Seq::empty());
    assert(out@ =~= base + quoted_join(nv, 0));
}

/// Builds the document of the `json-schema` emitter.
fn build_json(items: &Vec<Item>) -> (r: String)
    ensures
        r@ == json_contents(item_views(items@)),
{
    let scalars = collect_scalar_names(items);
    let ops = collect_op_names(items);
    let mut out = String::from_str("{\"scalars\":[");
    append_quoted_join(&mut out, &scalars);
    out.append("],\"operations\":[");
    append_quoted_join(&mut out, &ops);
    out.append("]}");
    assert(out@ =~= json_contents(item_views(items@)));
    out
}

/// Builds the text of the `summary` emitter.
fn build_summary(items: &Vec<Item>) -> (r: String)
    ensures
        r@ == summary_contents(item_views(items@), 0),
{
    let ghost iv = item_views(items@);
    let mut out = String::new();
    let mut p: usize = 0;
    proof {
        assert(out@ + summary_contents(iv, 0) =~= summary_contents(iv, 0));
    }
    while p < items.len()
        invariant
            0 <= p <= items@.len(),
            iv == item_views(items@),
            summary_contents(iv, 0) =~= out@ + summary_contents(iv, p as int),
        decreases items.len() - p,
    {
        match &items[p] {
            Item::Import { path } => {
                out.append("import ");
                out.append(path.as_str());
                out.append("\n");
            },
            Item::Scalar { name, .. } => {
                out.append("scalar ");
                out.append(name.as_str());
                out.append("\n");
            },
            Item::Namespace { name } => {
                out.append("namespace ");
                out.append(name.as_str());
                out.append("\n");
            },
            Item::Op { namespace, name, .. } => {
                out.append("op ");
                out.append(namespace.as_str());
                out.append(".");
                out.append(name.as_str());
                out.append("\n");
            },
        }
        proof {
            assert(summary_contents(iv, p as int) =~= summary_line(iv[p as int])
                + summary_contents(iv, p as int + 1));
        }
        p = p + 1;
    }
    assert(summary_contents(iv, items@.len() as int) =~= Seq::empty());
    assert(out@ =~= summary_contents(iv, 0));
    out
}

/// Runs one emitter.  `_arguments` is the caller's opaque argument list,
/// which the built-in emitters do not read.
fn emit_one(
    name: &str,
    items: &Vec<Item>,
    output_dir: &str,
    _arguments: &Vec<String>,
) -> (r: (Vec<EmittedFile>, Vec<Diagnostic>))
    ensures
        emitted_views(r.0@) == emitter_files(name@, item_views(items@), output_dir@),
        diag_views(r.1@) == emitter_diags(name@),
{
    let mut files: Vec<EmittedFile> = Vec::new();
    let mut diags: Vec<Diagnostic> = Vec::new();
    if str_eq(name, "json-schema") {
        let f = EmittedFile {
            path: join_path_exec(output_dir, "schema.json"),
            contents: build_json(items),
        };
        files.push(f);
        assert(emitted_views(files@) =~= emitter_files(name@, item_views(items@), output_dir@));
    } else if str_eq(name, "summary") {
        let f = EmittedFile {
            path: join_path_exec(output_dir, "summary.txt"),
            contents: build_summary(items),
        };
        files.push(f);
        assert(emitted_views(files@) =~= emitter_files(name@, item_views(items@), output_dir@));
    } else {
        let d = Diagnostic {
            severity: Severity::Warning,
            message: String::from_str("unknown emitter: ").concat(name),
        };
        diags.push(d);
        assert(diag_views(diags@) =~= emitter_diags(name@));
    }
    assert(emitted_views(files@) =~= emitter_files(name@, item_views(items@), output_dir@));
    assert(diag_views(diags@) =~= emitter_diags(name@));
    (files, diags)
}

/// Runs every configured emitter in listed order and gathers all
/// artifacts and all emitter diagnostics.
pub fn emit_all(
    emitters: &Vec<String>,
    items: &Vec<Item>,
    output_dir: &str,
    arguments: &Vec<String>,
) -> (r: (Vec<EmittedFile>, Vec<Diagnostic>))
    ensures
        emitted_views(r.0@) == sp_emit(
            string_views(emitters@),
            0,
            item_views(items@),
            output_dir@,
        ).0,
        diag_views(r.1@) == sp_emit(string_views(emitters@), 0, item_views(items@), output_dir@).1,
{
    let ghost ev = string_views(emitters@);
    let ghost iv = item_views(items@);
    let mut files: Vec<EmittedFile> = Vec::new();
    let mut diags: Vec<Diagnostic> = Vec::new();
    let mut p: usize = 0;
    proof {
        assert(emitted_views(files@) + sp_emit(ev, 0, iv, output_dir@).0 =~= sp_emit(
            ev,
            0,
            iv,
            output_dir@,
        ).0);
        assert(diag_views(diags@) + sp_emit(ev, 0, iv, output_dir@).1 =~= sp_emit(
            ev,
            0,
            iv,
            output_dir@,
        ).1);
    }
    while p < emitters.len()
        invariant
            0 <= p <= emitters@.len(),
            ev == string_views(emitters@),
            iv == item_views(items@),
            sp_emit(ev, 0, iv, output_dir@).0 =~= emitted_views(files@) + sp_emit(
                ev,
                p as int,
                iv,
                output_dir@,
            ).0,
            sp_emit(ev, 0, iv, output_dir@).1 =~= diag_views(diags@) + sp_emit(
                ev,
                p as int,
                iv,
                output_dir@,
            ).1,
        decreases emitters.len() - p,
    {
        let (mut f, mut d) = emit_one(emitters[p].as_str(), items, output_dir, arguments);
        proof {
            let rest = sp_emit(ev, p as int + 1, iv, output_dir@);
            assert(ev[p as int] == emitters@[p as int]@);
            assert(sp_emit(ev, p as int, iv, output_dir@).0 =~= emitter_files(
                ev[p as int],
                iv,
                output_dir@,
            ) + rest.0);
            assert(sp_emit(ev, p as int, iv, output_dir@).1 =~= emitter_diags(ev[p as int])
                + rest.1);
        }
        let ghost files0 = files@;
        let ghost diags0 = diags@;
        let ghost fv = f@;
        let ghost dv = d@;
        files.append(&mut f);
        diags.append(&mut d);
        proof {
            assert(emitted_views(files@) =~= emitted_views(files0) + emitted_views(fv));
            assert(diag_views(diags@) =~= diag_views(diags0) + diag_views(dv));
        }
        p = p + 1;
    }
    assert(sp_emit(ev, emitters@.len() as int, iv, output_dir@).0 =~= Seq::empty());
    assert(sp_emit(ev, emitters@.len() as int, iv, output_dir@).1 =~= Seq::empty());
    assert(emitted_views(files@) =~= sp_emit(ev, 0, iv, output_dir@).0);
    assert(diag_views(diags@) =~= sp_emit(ev, 0, iv, output_dir@).1);
    (files, diags)
}

} // verus!
