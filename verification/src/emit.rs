//! Rendering: turns the registry into the synthesized declarations, as Rust
//! source text.  The emitted shape is fixed and part of the compatibility
//! surface: a `CONSTS` array of name/value pairs, a `STATICS` slice of
//! name/reference pairs, and a non-exhaustive `enum Item` with one variant
//! per distinct tag.  Rendering is a pure function of the registry, so
//! repeated generation on unchanged input yields identical text.

use vstd::prelude::*;
use vstd::string::*;

use crate::model::{
    lemma_seq_view_index, lemma_seq_view_len, type_desc_seq_view, BuildError, Category,
    ModuleItem, TypeDesc, TypeModel,
};
use crate::registry::{
    all_decls_supported, build_registry, classify, eligible_decls, first_bad_decl, items_view,
    registry_of, Entry, EntryModel, Registry, RegistryModel, Variant, VariantModel,
};

verus! {

/// The decimal digit character for one digit value.
pub open spec fn dec_digit(n: int) -> char {
    if n == 0 {
        '0'
    } else if n == 1 {
        '1'
    } else if n == 2 {
        '2'
    } else if n == 3 {
        '3'
    } else if n == 4 {
        '4'
    } else if n == 5 {
        '5'
    } else if n == 6 {
        '6'
    } else if n == 7 {
        '7'
    } else if n == 8 {
        '8'
    } else {
        '9'
    }
}

/// The usual decimal rendering of a non-negative integer, no leading zeros.
pub open spec fn dec_rep(n: int) -> Seq<char>
    recommends
        n >= 0,
    decreases n,
{
    if n <= 9 {
        seq![dec_digit(n)]
    } else {
        dec_rep(n / 10).push(dec_digit(n % 10))
    }
}

fn digit_str(d: usize) -> (r: &'static str)
    requires
        d < 10,
    ensures
        r@ == seq![dec_digit(d as int)],
{
    match d {
        0 => {
            proof {
                reveal_strlit("0");
            }
            let r: &'static str = "0";
            assert(r@ =~= seq![dec_digit(d as int)]);
            r
        },
        1 => {
            proof {
                reveal_strlit("1");
            }
            let r: &'static str = "1";
            assert(r@ =~= seq![dec_digit(d as int)]);
            r
        },
        2 => {
            proof {
                reveal_strlit("2");
            }
            let r: &'static str = "2";
            assert(r@ =~= seq![dec_digit(d as int)]);
            r
        },
        3 => {
            proof {
                reveal_strlit("3");
            }
            let r: &'static str = "3";
            assert(r@ =~= seq![dec_digit(d as int)]);
            r
        },
        4 => {
            proof {
                reveal_strlit("4");
            }
            let r: &'static str = "4";
            assert(r@ =~= seq![dec_digit(d as int)]);
            r
        },
        5 => {
            proof {
                reveal_strlit("5");
            }
            let r: &'static str = "5";
            assert(r@ =~= seq![dec_digit(d as int)]);
            r
        },
        6 => {
            proof {
                reveal_strlit("6");
            }
            let r: &'static str = "6";
            assert(r@ =~= seq![dec_digit(d as int)]);
            r
        },
        7 => {
            proof {
                reveal_strlit("7");
            }
            let r: &'static str = "7";
            assert(r@ =~= seq![dec_digit(d as int)]);
            r
        },
        8 => {
            proof {
                reveal_strlit("8");
            }
            let r: &'static str = "8";
            assert(r@ =~= seq![dec_digit(d as int)]);
            r
        },
        _ => {
            proof {
                reveal_strlit("9");
            }
            let r: &'static str = "9";
            assert(r@ =~= seq![dec_digit(d as int)]);
            r
        },
    }
}

/// Renders a non-negative machine integer in decimal.
pub fn usize_to_dec(n: usize) -> (r: String)
    ensures
        r@ == dec_rep(n as int),
    decreases n,
{
    let d = n % 10;
    let ds = digit_str(d);
    if n <= 9 {
        String::from_str(ds)
    } else {
        let mut s = usize_to_dec(n / 10);
        s.append(ds);
        proof {
            assert(s@ =~= dec_rep(n as int));
        }
        s
    }
}

/// The Rust surface syntax of a type description.
///
/// A reference is rendered with the program-lifetime lifetime, since that is
/// the only lifetime the generated payloads can carry.
pub open spec fn render_type(t: TypeModel) -> Seq<char>
    decreases t,
{
    match t {
        TypeModel::Named(s) => s,
        TypeModel::Array(e, n) => "["@ + render_type(*e) + "; "@ + n + "]"@,
        TypeModel::Tuple(es) => if es.len() == 0 {
            "()"@
        } else if es.len() == 1 {
            "("@ + render_type(es[0]) + ",)"@
        } else {
            "("@ + render_types_sep(es) + ")"@
        },
        TypeModel::Ptr(e, m) => (if m {
            "*mut "@
        } else {
            "*const "@
        }) + render_type(*e),
        TypeModel::Reference(e) => "&'static "@ + render_type(*e),
        TypeModel::Slice(e) => "["@ + render_type(*e) + "]"@,
        TypeModel::Never => "!"@,
        TypeModel::Unsupported(s) => s,
    }
}

/// The renderings of several types, joined by a comma separator.
pub open spec fn render_types_sep(s: Seq<TypeModel>) -> Seq<char>
    decreases s,
{
    if s.len() == 0 {
        Seq::<char>::empty()
    } else if s.len() == 1 {
        render_type(s[0])
    } else {
        render_types_sep(s.drop_last()) + ", "@ + render_type(s.last())
    }
}

/// One row of the value table: the name as a string literal, then the tagged
/// value embedding the constant itself.
pub open spec fn render_const_entry(e: EntryModel) -> Seq<char> {
    "(\""@ + e.name + "\", Item::"@ + e.tag + "("@ + e.name + ")), "@
}

/// One row of the location table: the name as a string literal, then the
/// tagged value embedding a reference to the static.
pub open spec fn render_static_entry(e: EntryModel) -> Seq<char> {
    "(\""@ + e.name + "\", Item::"@ + e.tag + "(&("@ + e.name + "))), "@
}

pub open spec fn render_const_entries(s: Seq<EntryModel>) -> Seq<char>
    decreases s,
{
    if s.len() == 0 {
        Seq::<char>::empty()
    } else {
        render_const_entries(s.drop_last()) + render_const_entry(s.last())
    }
}

pub open spec fn render_static_entries(s: Seq<EntryModel>) -> Seq<char>
    decreases s,
{
    if s.len() == 0 {
        Seq::<char>::empty()
    } else {
        render_static_entries(s.drop_last()) + render_static_entry(s.last())
    }
}

/// One union variant: the tag, then the payload type — the declared type for
/// a value binding, a program-lifetime reference to it for a location
/// binding.
pub open spec fn render_variant(v: VariantModel) -> Seq<char> {
    v.tag + "("@ + (if v.category is Location {
        "&'static "@
    } else {
        Seq::<char>::empty()
    }) + render_type(v.payload) + "), "@
}

pub open spec fn render_variants(s: Seq<VariantModel>) -> Seq<char>
    decreases s,
{
    if s.len() == 0 {
        Seq::<char>::empty()
    } else {
        render_variants(s.drop_last()) + render_variant(s.last())
    }
}

/// The complete synthesized text: the value table, the location table, then
/// the tagged union, in that order.
pub open spec fn emit_model(r: RegistryModel) -> Seq<char> {
    "pub const CONSTS: [(&'static str, Item); "@ + dec_rep(r.consts.len() as int)
        + "] = ["@ + render_const_entries(r.consts) + "];\n"@
        + "pub static STATICS: &[(&'static str, Item)] = &["@
        + render_static_entries(r.statics) + "];\n"@
        + "#[non_exhaustive]\npub enum Item { "@ + render_variants(r.variants) + "}\n"@
}

/// Renders a type description back to Rust surface syntax.
pub fn render_type_string(t: &TypeDesc) -> (r: String)
    ensures
        r@ == render_type(t@),
    decreases *t,
{
    match t {
        TypeDesc::Named(s) => String::from_str(s.as_str()),
        TypeDesc::Array(e, n) => {
            let mut out = String::from_str("[");
            let inner = render_type_string(&**e);
            out.append(inner.as_str());
            out.append("; ");
            out.append(n.as_str());
            out.append("]");
            proof {
                assert(out@ =~= render_type(t@));
            }
            out
        },
        TypeDesc::Tuple(es) => {
            if es.len() == 0 {
                let r = String::from_str("()");
                proof {
                    assert(type_desc_seq_view(es@) =~= Seq::<TypeModel>::empty());
                }
                r
            } else if es.len() == 1 {
                proof {
                    lemma_seq_view_index(es@, 0);
                    assert(decreases_to!(*t => (*t)->Tuple_0));
                    assert(decreases_to!(*es => es@[0]));
                    assert(decreases_to!(*t => es@[0]));
                }
                let mut out = String::from_str("(");
                let inner = render_type_string(&es[0]);
                out.append(inner.as_str());
                out.append(",)");
                proof {
                    assert(out@ =~= render_type(t@));
                }
                out
            } else {
                let ghost mv = type_desc_seq_view(es@);
                proof {
                    lemma_seq_view_len(es@);
                    lemma_seq_view_index(es@, 0);
                    assert(decreases_to!(*t => (*t)->Tuple_0));
                    assert(decreases_to!(*es => es@[0]));
                    assert(decreases_to!(*t => es@[0]));
                }
                let mut acc = render_type_string(&es[0]);
                proof {
                    assert(mv.take(1)[0] == mv[0]);
                    assert(acc@ =~= render_types_sep(mv.take(1)));
                }
                let mut i: usize = 1;
                while i < es.len()
                    invariant
                        *t == TypeDesc::Tuple(*es),
                        1 <= i as int <= es@.len(),
                        2 <= es@.len(),
                        mv == type_desc_seq_view(es@),
                        mv.len() == es@.len(),
                        acc@ == render_types_sep(mv.take(i as int)),
                    decreases es@.len() - i,
                {
                    proof {
                        lemma_seq_view_index(es@, i as int);
                        assert(decreases_to!(*t => (*t)->Tuple_0));
                        assert(decreases_to!(*es => es@[i as int]));
                        assert(decreases_to!(*t => es@[i as int]));
                    }
                    acc.append(", ");
                    let inner = render_type_string(&es[i]);
                    acc.append(inner.as_str());
                    proof {
                        assert(mv.take(i as int + 1).drop_last() =~= mv.take(i as int));
                        assert(mv.take(i as int + 1).last() == mv[i as int]);
                        assert(acc@ =~= render_types_sep(mv.take(i as int + 1)));
                    }
                    i += 1;
                }
                let mut out = String::from_str("(");
                out.append(acc.as_str());
                out.append(")");
                proof {
                    assert(mv.take(es@.len() as int) =~= mv);
                    assert(out@ =~= render_type(t@));
                }
                out
            }
        },
        TypeDesc::Ptr(e, m) => {
            let mut out = if *m {
                String::from_str("*mut ")
            } else {
                String::from_str("*const ")
            };
            let inner = render_type_string(&**e);
            out.append(inner.as_str());
            proof {
                assert(out@ =~= render_type(t@));
            }
            out
        },
        TypeDesc::Reference(e) => {
            let mut out = String::from_str("&'static ");
            let inner = render_type_string(&**e);
            out.append(inner.as_str());
            proof {
                assert(out@ =~= render_type(t@));
            }
            out
        },
        TypeDesc::Slice(e) => {
            let mut out = String::from_str("[");
            let inner = render_type_string(&**e);
            out.append(inner.as_str());
            out.append("]");
            proof {
                assert(out@ =~= render_type(t@));
            }
            out
        },
        TypeDesc::Never => String::from_str("!"),
        TypeDesc::Unsupported(s) => String::from_str(s.as_str()),
    }
}

fn render_const_entry_string(e: &Entry) -> (r: String)
    ensures
        r@ == render_const_entry(e@),
{
    let mut s = String::from_str("(\"");
    s.append(e.name.as_str());
    s.append("\", Item::");
    s.append(e.tag.as_str());
    s.append("(");
    s.append(e.name.as_str());
    s.append(")), ");
    proof {
        assert(s@ =~= render_const_entry(e@));
    }
    s
}

fn render_static_entry_string(e: &Entry) -> (r: String)
    ensures
        r@ == render_static_entry(e@),
{
    let mut s = String::from_str("(\"");
    s.append(e.name.as_str());
    s.append("\", Item::");
    s.append(e.tag.as_str());
    s.append("(&(");
    s.append(e.name.as_str());
    s.append("))), ");
    proof {
        assert(s@ =~= render_static_entry(e@));
    }
    s
}

fn render_variant_string(v: &Variant) -> (r: String)
    ensures
        r@ == render_variant(v@),
{
    let mut s = String::from_str(v.tag.as_str());
    s.append("(");
    match v.category {
        Category::Location => {
            s.append("&'static ");
        },
        Category::Value => {},
    }
    let tys = render_type_string(&v.payload);
    s.append(tys.as_str());
    s.append("), ");
    proof {
        assert(s@ =~= render_variant(v@));
    }
    s
}

/// Renders the registry as the three synthesized declarations.
pub fn emit_registry(reg: &Registry) -> (r: String)
    ensures
        r@ == emit_model(reg@),
{
    let ghost m = reg@;
    let mut out = String::from_str("pub const CONSTS: [(&'static str, Item); ");
    let dec = usize_to_dec(reg.consts.len());
    out.append(dec.as_str());
    out.append("] = [");
    let ghost pre_consts = out@;
    let mut k: usize = 0;
    while k < reg.consts.len()
        invariant
            m == reg@,
            k as int <= m.consts.len(),
            m.consts.len() == reg.consts@.len(),
            out@ == pre_consts + render_const_entries(m.consts.take(k as int)),
        decreases reg.consts@.len() - k,
    {
        let es = render_const_entry_string(&reg.consts[k]);
        out.append(es.as_str());
        proof {
            assert(m.consts.take(k as int + 1).drop_last() =~= m.consts.take(k as int));
            assert(m.consts.take(k as int + 1).last() == m.consts[k as int]);
            assert(out@ =~= pre_consts + render_const_entries(m.consts.take(k as int + 1)));
        }
        k += 1;
    }
    proof {
        assert(m.consts.take(m.consts.len() as int) =~= m.consts);
    }
    out.append("];\n");
    out.append("pub static STATICS: &[(&'static str, Item)] = &[");
    let ghost pre_statics = out@;
    let mut k2: usize = 0;
    while k2 < reg.statics.len()
        invariant
            m == reg@,
            k2 as int <= m.statics.len(),
            m.statics.len() == reg.statics@.len(),
            out@ == pre_statics + render_static_entries(m.statics.take(k2 as int)),
        decreases reg.statics@.len() - k2,
    {
        let es = render_static_entry_string(&reg.statics[k2]);
        out.append(es.as_str());
        proof {
            assert(m.statics.take(k2 as int + 1).drop_last() =~= m.statics.take(k2 as int));
            assert(m.statics.take(k2 as int + 1).last() == m.statics[k2 as int]);
            assert(out@ =~= pre_statics + render_static_entries(m.statics.take(k2 as int + 1)));
        }
        k2 += 1;
    }
    proof {
        assert(m.statics.take(m.statics.len() as int) =~= m.statics);
    }
    out.append("];\n");
    out.append("#[non_exhaustive]\npub enum Item { ");
    let ghost pre_variants = out@;
    let mut k3: usize = 0;
    while k3 < reg.variants.len()
        invariant
            m == reg@,
            k3 as int <= m.variants.len(),
            m.variants.len() == reg.variants@.len(),
            out@ == pre_variants + render_variants(m.variants.take(k3 as int)),
        decreases reg.variants@.len() - k3,
    {
        let vs = render_variant_string(&reg.variants[k3]);
        out.append(vs.as_str());
        proof {
            assert(m.variants.take(k3 as int + 1).drop_last() =~= m.variants.take(k3 as int));
            assert(m.variants.take(k3 as int + 1).last() == m.variants[k3 as int]);
            assert(out@ =~= pre_variants + render_variants(m.variants.take(k3 as int + 1)));
        }
        k3 += 1;
    }
    proof {
        assert(m.variants.take(m.variants.len() as int) =~= m.variants);
    }
    out.append("}\n");
    proof {
        assert(out@ =~= emit_model(m));
    }
    out
}

/// Determinism: generation is a pure function of the module's structure.
/// Two item lists that agree structurally — same names, types and
/// categories, even if held in different heap values — generate identical
/// text, character for character.
pub proof fn lemma_generation_deterministic(items1: Seq<ModuleItem>, items2: Seq<ModuleItem>)
    requires
        items_view(items1) == items_view(items2),
    ensures
        emit_model(registry_of(eligible_decls(items_view(items1)))) == emit_model(
            registry_of(eligible_decls(items_view(items2))),
        ),
{
}

/// The whole generation pass for one module: classification, registry
/// construction, and rendering.  Succeeds if and only if every eligible
/// declaration's type is supported; on failure nothing is emitted at all,
/// and the error carries the rendering of the first offending type.
pub fn generate(items: Vec<ModuleItem>) -> (r: Result<String, BuildError>)
    ensures
        r is Ok <==> all_decls_supported(eligible_decls(items_view(items@))),
        r is Ok ==> r->Ok_0@ == emit_model(registry_of(eligible_decls(items_view(items@)))),
        r is Err ==> r->Err_0@ == first_bad_decl(eligible_decls(items_view(items@))),
{
    let decls = classify(items);
    let reg = match build_registry(decls) {
        Ok(g) => g,
        Err(bad) => {
            return Err(bad);
        },
    };
    Ok(emit_registry(&reg))
}

} // verus!
