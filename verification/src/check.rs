//! Validation of parsed declarations against the virtual file set.
//!
//! Imports must name a file of the set; every unresolved import yields an
//! error diagnostic instead of falling back to real storage.  A scalar's
//! base must be a builtin type or a scalar declared earlier in the file,
//! and an operation's return type must additionally be allowed to be
//! `void`.  Diagnostics come out in declaration order, so identical inputs
//! always yield identical diagnostics.

use vstd::prelude::*;

use crate::model::Diagnostic;
use crate::model::DiagnosticV;
use crate::model::Severity;
use crate::model::SourceFileV;
use crate::model::diag_views;
use crate::model::string_views;
use crate::syntax::Item;
use crate::syntax::ItemV;
use crate::syntax::item_views;
use crate::text::contains_str;
use crate::text::str_eq;
use crate::vfs::Vfs;
use crate::vfs::vfs_contains;

verus! {

/// An error diagnostic with the given message.
pub open spec fn error_diag(msg: Seq<char>) -> DiagnosticV {
    DiagnosticV { severity: Severity::Error, message: msg }
}

/// The builtin type names every compilation knows.
pub open spec fn is_builtin(t: Seq<char>) -> bool {
    t == "string"@ || t == "int32"@ || t == "int64"@ || t == "boolean"@ || t == "bytes"@
}

/// A name usable as a type: a builtin, or a scalar declared before the
/// point of use.
pub open spec fn valid_type(t: Seq<char>, declared: Seq<Seq<char>>) -> bool {
    is_builtin(t) || declared.contains(t)
}

/// A name usable as an operation return type: a type, or `void`.
pub open spec fn valid_ret(t: Seq<char>, declared: Seq<Seq<char>>) -> bool {
    valid_type(t, declared) || t == "void"@
}

/// The diagnostics of the declarations from position `p` on, with
/// `declared` the scalar names seen so far and `files` the virtual file
/// set imports are resolved against.
pub open spec fn sp_check(
    items: Seq<ItemV>,
    p: int,
    declared: Seq<Seq<char>>,
    files: Seq<SourceFileV>,
) -> Seq<DiagnosticV>
    decreases items.len() - p,
{
    if p < 0 || p >= items.len() {
        Seq::empty()
    } else {
        match items[p] {
            ItemV::Import { path } => (if vfs_contains(files, path) {
                Seq::empty()
            } else {
                seq![error_diag("unresolved import: "@ + path)]
            }) + sp_check(items, p + 1, declared, files),
            ItemV::Scalar { name, base } => (if valid_type(base, declared) {
                Seq::empty()
            } else {
                seq![error_diag("unknown type: "@ + base)]
            }) + sp_check(items, p + 1, declared.push(name), files),
            ItemV::Namespace { .. } => sp_check(items, p + 1, declared, files),
            ItemV::Op { ret, .. } => (if valid_ret(ret, declared) {
                Seq::empty()
            } else {
                seq![error_diag("unknown type: "@ + ret)]
            }) + sp_check(items, p + 1, declared, files),
        }
    }
}

fn builtin_type(t: &str) -> (r: bool)
    ensures
        r == is_builtin(t@),
{
    str_eq(t, "string") || str_eq(t, "int32") || str_eq(t, "int64") || str_eq(t, "boolean")
        || str_eq(t, "bytes")
}

fn type_ok(t: &str, declared: &Vec<String>) -> (r: bool)
    ensures
        r == valid_type(t@, string_views(declared@)),
{
    builtin_type(t) || contains_str(declared, t)
}

/// Validates the declarations of one parse, in order.
pub fn check_items(items: &Vec<Item>, vfs: &Vfs) -> (diags: Vec<Diagnostic>)
    ensures
        diag_views(diags@) == sp_check(item_views(items@), 0, Seq::empty(), vfs@),
{
    let ghost iv = item_views(items@);
    let mut diags: Vec<Diagnostic> = Vec::new();
    let mut declared: Vec<String> = Vec::new();
    let mut p: usize = 0;
    proof {
        assert(string_views(declared@) =~= Seq::<Seq<char>>::empty());
        assert(diag_views(diags@) + sp_check(iv, 0, Seq::empty(), vfs@) =~= sp_check(
            iv,
            0,
            Seq::empty(),
            vfs@,
        ));
    }
    while p < items.len()
        invariant
            0 <= p <= items@.len(),
            iv == item_views(items@),
            sp_check(iv, 0, Seq::empty(), vfs@) =~= diag_views(diags@) + sp_check(
                iv,
                p as int,
                string_views(declared@),
                vfs@,
            ),
        decreases items.len() - p,
    {
        let ghost dv0 = string_views(declared@);
        match &items[p] {
            Item::Import { path } => {
                if !vfs.contains(path.as_str()) {
                    let d = Diagnostic {
                        severity: Severity::Error,
                        message: String::from_str("unresolved import: ").concat(path.as_str()),
                    };
                    proof {
                        let rest = sp_check(iv, p as int + 1, dv0, vfs@);
                        assert(sp_check(iv, p as int, dv0, vfs@) =~= seq![d@] + rest);
                        assert(diag_views(diags@.push(d)) =~= diag_views(diags@).push(d@));
                        assert(diag_views(diags@) + (seq![d@] + rest) =~= diag_views(
                            diags@.push(d),
                        ) + rest);
                    }
                    diags.push(d);
                }
            },
            Item::Scalar { name, base } => {
                if !type_ok(base.as_str(), &declared) {
                    let d = Diagnostic {
                        severity: Severity::Error,
                        message: String::from_str("unknown type: ").concat(base.as_str()),
                    };
                    proof {
                        let rest = sp_check(iv, p as int + 1, dv0.push(name@), vfs@);
                        assert(sp_check(iv, p as int, dv0, vfs@) =~= seq![d@] + rest);
                        assert(diag_views(diags@.push(d)) =~= diag_views(diags@).push(d@));
                        assert(diag_views(diags@) + (seq![d@] + rest) =~= diag_views(
                            diags@.push(d),
                        ) + rest);
                    }
                    diags.push(d);
                }
                let n = name.clone();
                proof {
                    assert(string_views(declared@.push(n)) =~= dv0.push(name@));
                }
                declared.push(n);
            },
            Item::Namespace { .. } => {
            },
            Item::Op { ret, .. } => {
                let ret_ok = type_ok(ret.as_str(), &declared) || str_eq(ret.as_str(), "void");
                if !ret_ok {
                    let d = Diagnostic {
                        severity: Severity::Error,
                        message: String::from_str("unknown type: ").concat(ret.as_str()),
                    };
                    proof {
                        let rest = sp_check(iv, p as int + 1, dv0, vfs@);
                        assert(sp_check(iv, p as int, dv0, vfs@) =~= seq![d@] + rest);
                        assert(diag_views(diags@.push(d)) =~= diag_views(diags@).push(d@));
                        assert(diag_views(diags@) + (seq![d@] + rest) =~= diag_views(
                            diags@.push(d),
                        ) + rest);
                    }
                    diags.push(d);
                }
            },
        }
        p = p + 1;
    }
    assert(sp_check(iv, items@.len() as int, string_views(declared@), vfs@) =~= Seq::empty());
    assert(diag_views(diags@) =~= sp_check(iv, 0, Seq::empty(), vfs@));
    diags
}

} // verus!
