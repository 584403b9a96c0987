//! The registry builder: classifies a module's items, derives each eligible
//! declaration's tag, folds the declarations into a variant set keyed by tag
//! (first-occurrence order, last writer wins on a collision), and partitions
//! them into ordered association tables by mutability category.

use vstd::prelude::*;
use vstd::string::*;

use crate::model::{BuildError, Category, DeclModel, Declaration, ItemModel, ModuleItem, TypeDesc, TypeModel};
use crate::tag::{derive_tag, first_bad, supported, tag_of, ucfirst, ucfirst_string};

verus! {

/// The effective tag of a declaration.
///
/// A location binding is referenced rather than copied, so its tag is derived
/// from the referenced type: the declared type's tag with the reference
/// suffix, exactly `tag_of(TypeModel::Reference(...))`.
pub open spec fn decl_tag(d: DeclModel) -> Seq<char> {
    match d.category {
        Category::Value => tag_of(d.ty),
        Category::Location => ucfirst(tag_of(d.ty) + "Ref"@),
    }
}

/// A location binding's tag is exactly the tag the namer gives to a
/// reference to its declared type.
pub proof fn lemma_location_tag_is_reference_tag(d: DeclModel)
    requires
        d.category is Location,
    ensures
        decl_tag(d) == tag_of(TypeModel::Reference(Box::new(d.ty))),
{
}

pub open spec fn decl_supported(d: DeclModel) -> bool {
    supported(d.ty)
}

pub open spec fn decl_first_bad(d: DeclModel) -> Seq<char> {
    first_bad(d.ty)
}

pub open spec fn all_decls_supported(s: Seq<DeclModel>) -> bool {
    forall|i: int| 0 <= i < s.len() ==> decl_supported(#[trigger] s[i])
}

/// The rendering of the first unsupported type among the declarations, in
/// source order; the empty string where every declaration is supported.
pub open spec fn first_bad_decl(s: Seq<DeclModel>) -> Seq<char>
    decreases s,
{
    if s.len() == 0 {
        Seq::<char>::empty()
    } else if !decl_supported(s[0]) {
        decl_first_bad(s[0])
    } else {
        first_bad_decl(s.drop_first())
    }
}

/// One row of an association table: the declaration's name and its tag.
pub struct Entry {
    pub name: String,
    pub tag: String,
}

/// Spec-level model of an `Entry`.
pub struct EntryModel {
    pub name: Seq<char>,
    pub tag: Seq<char>,
}

impl View for Entry {
    type V = EntryModel;

    open spec fn view(&self) -> EntryModel {
        EntryModel { name: self.name@, tag: self.tag@ }
    }
}

pub open spec fn entry_of(d: DeclModel) -> EntryModel {
    EntryModel { name: d.name, tag: decl_tag(d) }
}

/// The table rows of the value bindings, in source order.
pub open spec fn value_entries(s: Seq<DeclModel>) -> Seq<EntryModel>
    decreases s,
{
    if s.len() == 0 {
        Seq::<EntryModel>::empty()
    } else {
        let r = value_entries(s.drop_last());
        if s.last().category is Value {
            r.push(entry_of(s.last()))
        } else {
            r
        }
    }
}

/// The table rows of the location bindings, in source order.
pub open spec fn location_entries(s: Seq<DeclModel>) -> Seq<EntryModel>
    decreases s,
{
    if s.len() == 0 {
        Seq::<EntryModel>::empty()
    } else {
        let r = location_entries(s.drop_last());
        if s.last().category is Location {
            r.push(entry_of(s.last()))
        } else {
            r
        }
    }
}

/// One variant of the tagged union: its tag, its payload type, and the
/// category that decides whether the payload is embedded or referenced.
pub struct Variant {
    pub tag: String,
    pub payload: TypeDesc,
    pub category: Category,
}

/// Spec-level model of a `Variant`.
pub struct VariantModel {
    pub tag: Seq<char>,
    pub payload: TypeModel,
    pub category: Category,
}

impl View for Variant {
    type V = VariantModel;

    open spec fn view(&self) -> VariantModel {
        VariantModel { tag: self.tag@, payload: self.payload@, category: self.category }
    }
}

pub open spec fn variant_of(d: DeclModel) -> VariantModel {
    VariantModel { tag: decl_tag(d), payload: d.ty, category: d.category }
}

/// The distinct tags of the declarations, each at the position of its first
/// occurrence in source order.
pub open spec fn variant_tags(s: Seq<DeclModel>) -> Seq<Seq<char>>
    decreases s,
{
    if s.len() == 0 {
        Seq::<Seq<char>>::empty()
    } else {
        let r = variant_tags(s.drop_last());
        if r.contains(decl_tag(s.last())) {
            r
        } else {
            r.push(decl_tag(s.last()))
        }
    }
}

/// The variant carried by a tag: the one of the last declaration in source
/// order whose tag collides with it ("last writer wins").
pub open spec fn last_variant(s: Seq<DeclModel>, tg: Seq<char>) -> VariantModel
    decreases s,
{
    if s.len() == 0 {
        arbitrary()
    } else if decl_tag(s.last()) == tg {
        variant_of(s.last())
    } else {
        last_variant(s.drop_last(), tg)
    }
}

/// The full variant set: one variant per distinct tag, in first-occurrence
/// order, each carrying the payload of the tag's last writer.
pub open spec fn variants_of(s: Seq<DeclModel>) -> Seq<VariantModel> {
    variant_tags(s).map_values(|tg: Seq<char>| last_variant(s, tg))
}

/// Everything the generator synthesizes for one module, before rendering.
pub struct Registry {
    pub variants: Vec<Variant>,
    pub consts: Vec<Entry>,
    pub statics: Vec<Entry>,
}

/// Spec-level model of a `Registry`.
pub struct RegistryModel {
    pub variants: Seq<VariantModel>,
    pub consts: Seq<EntryModel>,
    pub statics: Seq<EntryModel>,
}

impl View for Registry {
    type V = RegistryModel;

    open spec fn view(&self) -> RegistryModel {
        RegistryModel {
            variants: self.variants@.map_values(|v: Variant| v@),
            consts: self.consts@.map_values(|e: Entry| e@),
            statics: self.statics@.map_values(|e: Entry| e@),
        }
    }
}

pub open spec fn registry_of(s: Seq<DeclModel>) -> RegistryModel {
    RegistryModel {
        variants: variants_of(s),
        consts: value_entries(s),
        statics: location_entries(s),
    }
}

pub open spec fn decls_view(s: Seq<Declaration>) -> Seq<DeclModel> {
    s.map_values(|d: Declaration| d@)
}

pub open spec fn items_view(s: Seq<ModuleItem>) -> Seq<ItemModel> {
    s.map_values(|it: ModuleItem| it@)
}

/// The declarations the classification pass keeps, in source order.
pub open spec fn eligible_decls(s: Seq<ItemModel>) -> Seq<DeclModel>
    decreases s,
{
    if s.len() == 0 {
        Seq::<DeclModel>::empty()
    } else {
        let r = eligible_decls(s.drop_last());
        match s.last() {
            ItemModel::Value(n, t) => r.push(
                DeclModel { name: n, ty: t, category: Category::Value },
            ),
            ItemModel::Location(n, t) => r.push(
                DeclModel { name: n, ty: t, category: Category::Location },
            ),
            ItemModel::Other => r,
        }
    }
}

/// Classification pass: keeps the value and location bindings, in source
/// order, and silently skips every other item.
pub fn classify(items: Vec<ModuleItem>) -> (r: Vec<Declaration>)
    ensures
        decls_view(r@) == eligible_decls(items_view(items@)),
{
    let ghost iv = items_view(items@);
    let mut rest = items;
    let total: usize = rest.len();
    proof {
        assert(iv.len() == total as int);
    }
    let mut out: Vec<Declaration> = Vec::new();
    let mut i: usize = 0;
    while rest.len() > 0
        invariant
            iv.len() <= usize::MAX as int,
            i as int + rest@.len() == iv.len(),
            forall|k: int| 0 <= k < rest@.len() ==> (#[trigger] rest@[k])@ == iv[i as int + k],
            decls_view(out@) == eligible_decls(iv.take(i as int)),
        decreases rest@.len(),
    {
        let ghost old_rest = rest@;
        let it = rest.remove(0);
        let ghost git = it@;
        proof {
            assert(rest@ =~= old_rest.drop_first());
            assert(git == iv[i as int]);
            assert(iv.take(i as int + 1).drop_last() =~= iv.take(i as int));
            assert(iv.take(i as int + 1).last() == iv[i as int]);
        }
        match it {
            ModuleItem::Value(n, t) => {
                let d = Declaration { name: n, ty: t, category: Category::Value };
                proof {
                    assert(git == ItemModel::Value(d.name@, d.ty@));
                }
                out.push(d);
                proof {
                    assert(decls_view(out@) =~= eligible_decls(iv.take(i as int + 1)));
                }
            },
            ModuleItem::Location(n, t) => {
                let d = Declaration { name: n, ty: t, category: Category::Location };
                proof {
                    assert(git == ItemModel::Location(d.name@, d.ty@));
                }
                out.push(d);
                proof {
                    assert(decls_view(out@) =~= eligible_decls(iv.take(i as int + 1)));
                }
            },
            ModuleItem::Other => {
                proof {
                    assert(decls_view(out@) =~= eligible_decls(iv.take(i as int + 1)));
                }
            },
        }
        i += 1;
    }
    proof {
        assert(iv.take(iv.len() as int) =~= iv);
    }
    out
}

pub proof fn lemma_first_bad_decl_at(s: Seq<DeclModel>, i: int)
    requires
        0 <= i < s.len(),
        all_decls_supported(s.take(i)),
        !decl_supported(s[i]),
    ensures
        first_bad_decl(s) == decl_first_bad(s[i]),
    decreases i,
{
    if i > 0 {
        assert(s.take(i)[0] == s[0]);
        assert(decl_supported(s[0]));
        let rest = s.drop_first();
        assert(rest.take(i - 1) =~= s.take(i).drop_first());
        assert(all_decls_supported(rest.take(i - 1))) by {
            assert forall|k: int| 0 <= k < i - 1 implies decl_supported(
                #[trigger] rest.take(i - 1)[k],
            ) by {
                assert(rest.take(i - 1)[k] == s.take(i)[k + 1]);
            }
        }
        assert(rest[i - 1] == s[i]);
        lemma_first_bad_decl_at(rest, i - 1);
    }
}

/// The distinct tags never repeat: the variant set has one entry per tag.
pub proof fn lemma_variant_tags_distinct(s: Seq<DeclModel>)
    ensures
        forall|a: int, b: int|
            0 <= a < b < variant_tags(s).len() ==> variant_tags(s)[a] != variant_tags(s)[b],
    decreases s,
{
    if s.len() > 0 {
        let p = s.drop_last();
        lemma_variant_tags_distinct(p);
        let tags = variant_tags(s);
        let ptags = variant_tags(p);
        if !ptags.contains(decl_tag(s.last())) {
            assert(tags == ptags.push(decl_tag(s.last())));
            assert forall|a: int, b: int| 0 <= a < b < tags.len() implies tags[a] != tags[b] by {
                if b == tags.len() - 1 {
                    assert(tags[b] == decl_tag(s.last()));
                    assert(tags[a] == ptags[a]);
                }
            }
        }
    }
}

/// Every tag in the variant set names the variant stored for it.
pub proof fn lemma_last_variant_tag(s: Seq<DeclModel>, tg: Seq<char>)
    requires
        variant_tags(s).contains(tg),
    ensures
        last_variant(s, tg).tag == tg,
    decreases s,
{
    if s.len() == 0 {
        assert(variant_tags(s).len() == 0);
        assert(false);
    } else {
        let p = s.drop_last();
        if decl_tag(s.last()) == tg {
        } else {
            let ptags = variant_tags(p);
            if !ptags.contains(decl_tag(s.last())) {
                let k = choose|k: int|
                    0 <= k < variant_tags(s).len() && variant_tags(s)[k] == tg;
                assert(k < ptags.len() + 1);
                assert(k != ptags.len());
                assert(ptags[k] == tg);
                assert(ptags.contains(tg));
            }
            lemma_last_variant_tag(p, tg);
        }
    }
}

/// Pointwise shape of the variant set: entry `k` carries tag `k`.
pub proof fn lemma_variants_of_shape(s: Seq<DeclModel>)
    ensures
        variants_of(s).len() == variant_tags(s).len(),
        forall|k: int|
            0 <= k < variant_tags(s).len() ==> (#[trigger] variants_of(s)[k]).tag
                == variant_tags(s)[k],
{
    assert forall|k: int| 0 <= k < variant_tags(s).len() implies (#[trigger] variants_of(s)[
        k
    ]).tag == variant_tags(s)[k] by {
        assert(variant_tags(s).contains(variant_tags(s)[k]));
        lemma_last_variant_tag(s, variant_tags(s)[k]);
    }
}

/// Appending a declaration whose tag is not yet in the variant set appends
/// its variant.
pub proof fn lemma_variants_step_push(p: Seq<DeclModel>, d: DeclModel)
    requires
        !variant_tags(p).contains(decl_tag(d)),
    ensures
        variants_of(p.push(d)) == variants_of(p).push(variant_of(d)),
{
    let q = p.push(d);
    assert(q.drop_last() =~= p);
    assert(q.last() == d);
    let tags = variant_tags(q);
    assert(tags == variant_tags(p).push(decl_tag(d)));
    assert forall|k: int| 0 <= k < tags.len() implies variants_of(q)[k] == variants_of(p).push(
        variant_of(d),
    )[k] by {
        if k < tags.len() - 1 {
            assert(variant_tags(p)[k] != decl_tag(d));
            assert(last_variant(q, tags[k]) == last_variant(p, tags[k]));
        } else {
            assert(tags[k] == decl_tag(d));
            assert(last_variant(q, decl_tag(d)) == variant_of(d));
        }
    }
    assert(variants_of(q) =~= variants_of(p).push(variant_of(d)));
}

/// Appending a declaration whose tag is already in the variant set replaces
/// that tag's variant in place: the last writer wins, the position does not
/// move.
pub proof fn lemma_variants_step_update(p: Seq<DeclModel>, d: DeclModel, jj: int)
    requires
        0 <= jj < variant_tags(p).len(),
        variant_tags(p)[jj] == decl_tag(d),
    ensures
        variants_of(p.push(d)) == variants_of(p).update(jj, variant_of(d)),
{
    let q = p.push(d);
    assert(q.drop_last() =~= p);
    assert(q.last() == d);
    let tags = variant_tags(q);
    assert(variant_tags(p).contains(decl_tag(d)));
    assert(tags == variant_tags(p));
    lemma_variant_tags_distinct(p);
    assert forall|k: int| 0 <= k < tags.len() implies variants_of(q)[k] == variants_of(p).update(
        jj,
        variant_of(d),
    )[k] by {
        if k == jj {
            assert(last_variant(q, decl_tag(d)) == variant_of(d));
        } else {
            assert(tags[k] != decl_tag(d));
            assert(last_variant(q, tags[k]) == last_variant(p, tags[k]));
        }
    }
    assert(variants_of(q) =~= variants_of(p).update(jj, variant_of(d)));
}

/// Appending a declaration extends exactly the table of its own category.
pub proof fn lemma_entries_step(p: Seq<DeclModel>, d: DeclModel)
    ensures
        value_entries(p.push(d)) == (if d.category is Value {
            value_entries(p).push(entry_of(d))
        } else {
            value_entries(p)
        }),
        location_entries(p.push(d)) == (if d.category is Location {
            location_entries(p).push(entry_of(d))
        } else {
            location_entries(p)
        }),
{
    let q = p.push(d);
    assert(q.drop_last() =~= p);
    assert(q.last() == d);
}

/// Finds the position of a tag in the variant list built so far.
fn find_tag(variants: &Vec<Variant>, tag: &String) -> (r: Option<usize>)
    ensures
        match r {
            Some(j) => j < variants@.len() && variants@[j as int]@.tag == tag@,
            None => forall|k: int|
                0 <= k < variants@.len() ==> (#[trigger] variants@[k])@.tag != tag@,
        },
{
    let mut j: usize = 0;
    while j < variants.len()
        invariant
            j as int <= variants@.len(),
            forall|k: int| 0 <= k < j as int ==> (#[trigger] variants@[k])@.tag != tag@,
        decreases variants@.len() - j,
    {
        if variants[j].tag == *tag {
            return Some(j);
        }
        j += 1;
    }
    None
}

/// Folds the declarations, in source order, into the registry: the variant
/// set (first-occurrence order, last writer wins per tag) and the two
/// association tables, partitioned by mutability category.  Fails on the
/// first declaration whose type is unsupported, with no partial output.
pub fn build_registry(decls: Vec<Declaration>) -> (r: Result<Registry, BuildError>)
    ensures
        r is Ok <==> all_decls_supported(decls_view(decls@)),
        r is Ok ==> r->Ok_0@ == registry_of(decls_view(decls@)),
        r is Err ==> r->Err_0@ == first_bad_decl(decls_view(decls@)),
{
    let ghost dv = decls_view(decls@);
    let mut rest = decls;
    let total: usize = rest.len();
    proof {
        assert(dv.len() == total as int);
    }
    let mut consts: Vec<Entry> = Vec::new();
    let mut statics: Vec<Entry> = Vec::new();
    let mut variants: Vec<Variant> = Vec::new();
    let mut i: usize = 0;
    while rest.len() > 0
        invariant
            dv == decls_view(decls@),
            dv.len() <= usize::MAX as int,
            i as int + rest@.len() == dv.len(),
            forall|k: int| 0 <= k < rest@.len() ==> (#[trigger] rest@[k])@ == dv[i as int + k],
            all_decls_supported(dv.take(i as int)),
            consts@.map_values(|e: Entry| e@) == value_entries(dv.take(i as int)),
            statics@.map_values(|e: Entry| e@) == location_entries(dv.take(i as int)),
            variants@.map_values(|v: Variant| v@) == variants_of(dv.take(i as int)),
        decreases rest@.len(),
    {
        let ghost old_rest = rest@;
        let ghost p = dv.take(i as int);
        let d = rest.remove(0);
        let ghost gd = d@;
        proof {
            assert(rest@ =~= old_rest.drop_first());
            assert(gd == dv[i as int]);
            assert(dv.take(i as int + 1).drop_last() =~= p);
            assert(dv.take(i as int + 1).last() == dv[i as int]);
            assert(dv.take(i as int + 1) =~= p.push(gd));
        }
        let Declaration { name, ty, category } = d;
        let base = match derive_tag(&ty) {
            Ok(b) => b,
            Err(bad) => {
                proof {
                    assert(!decl_supported(gd));
                    lemma_first_bad_decl_at(dv, i as int);
                    assert(!all_decls_supported(dv));
                }
                return Err(bad);
            },
        };
        let tagstr = match category {
            Category::Value => base,
            Category::Location => {
                let mut raw = base;
                raw.append("Ref");
                ucfirst_string(raw.as_str())
            },
        };
        proof {
            assert(tagstr@ == decl_tag(gd));
        }
        let pos = find_tag(&variants, &tagstr);
        let newv = Variant { tag: tagstr.clone(), payload: ty, category };
        proof {
            assert(newv@ == variant_of(gd));
            lemma_variants_of_shape(p);
            lemma_variant_tags_distinct(p);
        }
        match pos {
            Some(j) => {
                proof {
                    assert(variants_of(p)[j as int].tag == decl_tag(gd));
                    assert(variant_tags(p)[j as int] == decl_tag(gd));
                    lemma_variants_step_update(p, gd, j as int);
                }
                variants.remove(j);
                variants.insert(j, newv);
                proof {
                    assert(variants@.map_values(|v: Variant| v@) =~= variants_of(
                        dv.take(i as int + 1),
                    ));
                }
            },
            None => {
                proof {
                    assert forall|k: int|
                        0 <= k < variant_tags(p).len() implies variant_tags(p)[k] != decl_tag(
                        gd,
                    ) by {
                        assert(variants_of(p)[k].tag == variant_tags(p)[k]);
                    }
                    assert(!variant_tags(p).contains(decl_tag(gd)));
                    lemma_variants_step_push(p, gd);
                }
                variants.push(newv);
                proof {
                    assert(variants@.map_values(|v: Variant| v@) =~= variants_of(
                        dv.take(i as int + 1),
                    ));
                }
            },
        }
        let entry = Entry { name, tag: tagstr };
        proof {
            assert(entry@ == entry_of(gd));
            lemma_entries_step(p, gd);
        }
        match category {
            Category::Value => {
                consts.push(entry);
            },
            Category::Location => {
                statics.push(entry);
            },
        }
        proof {
            assert(consts@.map_values(|e: Entry| e@) =~= value_entries(dv.take(i as int + 1)));
            assert(statics@.map_values(|e: Entry| e@) =~= location_entries(
                dv.take(i as int + 1),
            ));
            assert(all_decls_supported(dv.take(i as int + 1)));
        }
        i += 1;
    }
    proof {
        assert(dv.take(dv.len() as int) =~= dv);
    }
    Ok(Registry { variants, consts, statics })
}

/// The subsequence of the value-binding declarations, in source order.
pub open spec fn value_decls(s: Seq<DeclModel>) -> Seq<DeclModel> {
    s.filter(|d: DeclModel| d.category is Value)
}

/// The subsequence of the location-binding declarations, in source order.
pub open spec fn location_decls(s: Seq<DeclModel>) -> Seq<DeclModel> {
    s.filter(|d: DeclModel| d.category is Location)
}

/// One table row per declaration, in the order given.
pub open spec fn entries_of(s: Seq<DeclModel>) -> Seq<EntryModel> {
    s.map_values(|d: DeclModel| entry_of(d))
}

/// Order preservation: each table is exactly its category's subsequence of
/// the declarations, in source order, one row per declaration.
pub proof fn lemma_order_preservation(s: Seq<DeclModel>)
    ensures
        value_entries(s) == entries_of(value_decls(s)),
        location_entries(s) == entries_of(location_decls(s)),
    decreases s,
{
    reveal_with_fuel(Seq::<DeclModel>::filter, 2);
    if s.len() == 0 {
        assert(value_entries(s) =~= entries_of(value_decls(s)));
        assert(location_entries(s) =~= entries_of(location_decls(s)));
    } else {
        let p = s.drop_last();
        lemma_order_preservation(p);
        if s.last().category is Value {
            assert(value_decls(s) == value_decls(p).push(s.last()));
            assert(location_decls(s) == location_decls(p));
            assert(entries_of(value_decls(p).push(s.last())) =~= entries_of(
                value_decls(p),
            ).push(entry_of(s.last())));
        } else {
            assert(value_decls(s) == value_decls(p));
            assert(location_decls(s) == location_decls(p).push(s.last()));
            assert(entries_of(location_decls(p).push(s.last())) =~= entries_of(
                location_decls(p),
            ).push(entry_of(s.last())));
        }
        assert(value_entries(s) =~= entries_of(value_decls(s)));
        assert(location_entries(s) =~= entries_of(location_decls(s)));
    }
}

/// The row position of one declaration inside its own category's table: the
/// number of earlier declarations of the same category.
pub open spec fn category_pos(s: Seq<DeclModel>, i: int) -> int {
    if s[i].category is Value {
        value_decls(s.take(i)).len() as int
    } else {
        location_decls(s.take(i)).len() as int
    }
}

/// Partition correctness: the two tables together hold exactly one row per
/// declaration; each declaration's row stands in the table of its category,
/// at the position `category_pos` gives, and nowhere else.
pub proof fn lemma_partition(s: Seq<DeclModel>)
    ensures
        value_entries(s).len() + location_entries(s).len() == s.len(),
        forall|i: int|
            0 <= i < s.len() && (#[trigger] s[i]).category is Value ==> 0 <= category_pos(s, i)
                < value_entries(s).len() && value_entries(s)[category_pos(s, i)] == entry_of(
                s[i],
            ),
        forall|i: int|
            0 <= i < s.len() && (#[trigger] s[i]).category is Location ==> 0 <= category_pos(
                s,
                i,
            ) < location_entries(s).len() && location_entries(s)[category_pos(s, i)]
                == entry_of(s[i]),
    decreases s,
{
    if s.len() > 0 {
        let p = s.drop_last();
        lemma_partition(p);
        lemma_order_preservation(p);
        lemma_order_preservation(s);
        let last = s.len() - 1;
        assert(s.take(last) =~= p);
        assert forall|i: int| 0 <= i < s.len() && (#[trigger] s[i]).category is Value implies 0
            <= category_pos(s, i) < value_entries(s).len() && value_entries(s)[category_pos(
            s,
            i,
        )] == entry_of(s[i]) by {
            if i < last {
                assert(s[i] == p[i]);
                assert(s.take(i) =~= p.take(i));
                assert(category_pos(s, i) == category_pos(p, i));
                assert(value_entries(s)[category_pos(p, i)] == value_entries(p)[category_pos(
                    p,
                    i,
                )]);
            } else {
                assert(category_pos(s, last) == value_decls(p).len());
            }
        }
        assert forall|i: int|
            0 <= i < s.len() && (#[trigger] s[i]).category is Location implies 0
            <= category_pos(s, i) < location_entries(s).len() && location_entries(s)[
            category_pos(s, i)] == entry_of(s[i]) by {
            if i < last {
                assert(s[i] == p[i]);
                assert(s.take(i) =~= p.take(i));
                assert(category_pos(s, i) == category_pos(p, i));
                assert(location_entries(s)[category_pos(p, i)] == location_entries(p)[
                    category_pos(p, i)]);
            } else {
                assert(category_pos(s, last) == location_decls(p).len());
            }
        }
    }
}

/// Tag stability under renaming: a declaration's tag depends only on its
/// type and category, never on its name.
pub proof fn lemma_tag_stable_under_renaming(d1: DeclModel, d2: DeclModel)
    requires
        d1.ty == d2.ty,
        d1.category == d2.category,
    ensures
        decl_tag(d1) == decl_tag(d2),
{
}

/// Renaming declarations (types and categories unchanged) leaves the whole
/// variant set unchanged: membership, order and payloads ignore names.
pub proof fn lemma_variants_ignore_names(s1: Seq<DeclModel>, s2: Seq<DeclModel>)
    requires
        s1.len() == s2.len(),
        forall|i: int|
            0 <= i < s1.len() ==> (#[trigger] s1[i]).ty == s2[i].ty && s1[i].category
                == s2[i].category,
    ensures
        variant_tags(s1) == variant_tags(s2),
        forall|tg: Seq<char>| last_variant(s1, tg) == #[trigger] last_variant(s2, tg),
        variants_of(s1) == variants_of(s2),
    decreases s1,
{
    if s1.len() == 0 {
        assert(s2.len() == 0);
        assert(variant_tags(s1) == variant_tags(s2));
    } else {
        let p1 = s1.drop_last();
        let p2 = s2.drop_last();
        assert forall|i: int|
            0 <= i < p1.len() implies (#[trigger] p1[i]).ty == p2[i].ty && p1[i].category
            == p2[i].category by {
            assert(s1[i].ty == s2[i].ty && s1[i].category == s2[i].category);
        }
        lemma_variants_ignore_names(p1, p2);
        assert(s1.last().ty == s2.last().ty && s1.last().category == s2.last().category);
        assert(decl_tag(s1.last()) == decl_tag(s2.last()));
        assert(variant_of(s1.last()) == variant_of(s2.last()));
        assert forall|tg: Seq<char>| last_variant(s1, tg) == #[trigger] last_variant(
            s2,
            tg,
        ) by {
            assert(last_variant(p1, tg) == last_variant(p2, tg));
        }
    }
    assert(variants_of(s1) =~= variants_of(s2));
}

} // verus!
