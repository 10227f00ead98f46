//! Field enumeration: from a record type's field declarations to the
//! ordered descriptors of its editable fields, skipping fields marked
//! `skip` and attaching annotated ranges.

use vstd::prelude::*;
use crate::attr::{AttrError, AttrToken, FieldAttrs, parse_field_attrs, spec_default_attrs, spec_parse_attrs};
use crate::{FieldOptions, FieldValue, ReflectField};

verus! {

/// One declared field of a record type: its identifier, its annotation
/// tokens, and its value.
pub struct FieldDecl {
    /// The field's identifier.
    pub name: String,
    /// The tokens of the field's annotations, in source order.
    pub attr: Vec<AttrToken>,
    /// The field's value.
    pub value: FieldValue,
}

/// The title-cased form of an identifier's characters, under which a
/// field is displayed.
pub uninterp spec fn title_of(s: Seq<char>) -> Seq<char>;

/// Relies on `heck::ToTitleCase::to_title_case`: the title-cased text,
/// a function of the input's characters alone.
#[verifier::external_body]
fn title_case(s: &str) -> (r: String)
    ensures
        r@ == title_of(s@),
{
    heck::ToTitleCase::to_title_case(s)
}

/// What a declaration's annotation tokens parse to.
pub open spec fn attrs_of(d: FieldDecl) -> Result<FieldAttrs, AttrError> {
    spec_parse_attrs(d.attr@, spec_default_attrs())
}

/// Whether a declaration contributes a descriptor: its annotations parse
/// and do not mark it skipped.
pub open spec fn keeps(d: FieldDecl) -> bool {
    attrs_of(d) is Ok && !attrs_of(d)->Ok_0.skip
}

/// The mathematical form of one field descriptor.
pub struct FieldModel {
    /// The display name's characters.
    pub name: Seq<char>,
    /// The annotated range, if any.
    pub range: Option<(i32, i32)>,
    /// The field's value.
    pub value: FieldValue,
}

/// The descriptor a kept declaration contributes.
pub open spec fn model_of(d: FieldDecl) -> FieldModel {
    FieldModel { name: title_of(d.name@), range: attrs_of(d)->Ok_0.range, value: d.value }
}

/// The mathematical form of a descriptor list.
pub open spec fn models_of(s: Seq<ReflectField>) -> Seq<FieldModel> {
    s.map_values(|f: ReflectField| FieldModel { name: f.name@, range: f.opts.range, value: f.value })
}

/// The descriptors that a declaration list yields: one per kept
/// declaration, in declaration order.
pub open spec fn spec_descriptors(decls: Seq<FieldDecl>) -> Seq<FieldModel>
    decreases decls.len(),
{
    if decls.len() == 0 {
        Seq::empty()
    } else {
        let rest = spec_descriptors(decls.drop_first());
        if keeps(decls.first()) {
            seq![model_of(decls.first())] + rest
        } else {
            rest
        }
    }
}

/// The kept declarations, in declaration order.
pub open spec fn spec_kept(decls: Seq<FieldDecl>) -> Seq<FieldDecl>
    decreases decls.len(),
{
    if decls.len() == 0 {
        Seq::empty()
    } else {
        let rest = spec_kept(decls.drop_first());
        if keeps(decls.first()) {
            seq![decls.first()] + rest
        } else {
            rest
        }
    }
}

/// Enumerates a record's editable fields: one descriptor per declaration
/// whose annotations do not mark it skipped, in declaration order, with
/// the display name title-cased from the identifier and the annotated
/// range attached.  The first declaration whose annotations are malformed
/// is reported instead.
pub fn enumerate_fields(decls: Vec<FieldDecl>) -> (r: Result<Vec<ReflectField>, AttrError>)
    ensures
        match r {
            Ok(fields) => {
                &&& forall|j: int| 0 <= j < decls@.len() ==> attrs_of(#[trigger] decls@[j]) is Ok
                &&& models_of(fields@) == spec_descriptors(decls@)
            },
            Err(e) => exists|j: int|
                {
                    &&& 0 <= j < decls@.len()
                    &&& attrs_of(#[trigger] decls@[j]) == Err::<FieldAttrs, AttrError>(e)
                    &&& forall|m: int| 0 <= m < j ==> attrs_of(#[trigger] decls@[m]) is Ok
                },
        },
{
    let ghost decls0 = decls@;
    let mut rem = decls;
    let mut out: Vec<ReflectField> = Vec::new();
    let n: usize = rem.len();
    let mut k: usize = 0;
    proof {
        assert(decls0.skip(0) =~= decls0);
        assert(models_of(out@) =~= Seq::<FieldModel>::empty());
        assert(models_of(out@) + spec_descriptors(decls0) =~= spec_descriptors(decls0));
    }
    while k < n
        invariant
            k <= n,
            n == decls0.len(),
            decls0 == decls@,
            rem@ == decls0.skip(k as int),
            forall|j: int| 0 <= j < k ==> attrs_of(#[trigger] decls0[j]) is Ok,
            models_of(out@) + spec_descriptors(decls0.skip(k as int)) == spec_descriptors(decls0),
        decreases n - k,
    {
        let ghost rest = decls0.skip(k as int);
        proof {
            assert(rest.first() == decls0[k as int]);
            assert(rest.drop_first() =~= decls0.skip(k as int + 1));
        }
        let d = rem.remove(0);
        proof {
            assert(rem@ =~= decls0.skip(k as int + 1));
        }
        match parse_field_attrs(&d.attr) {
            Err(e) => {
                proof {
                    assert(attrs_of(decls0[k as int]) == Err::<FieldAttrs, AttrError>(e));
                    assert(exists|j: int|
                        {
                            &&& 0 <= j < decls@.len()
                            &&& attrs_of(#[trigger] decls@[j]) == Err::<FieldAttrs, AttrError>(e)
                            &&& forall|m: int| 0 <= m < j ==> attrs_of(#[trigger] decls@[m]) is Ok
                        }) by {
                        assert(decls0 == decls@);
                        assert({
                            &&& 0 <= (k as int)
                            &&& (k as int) < decls0.len()
                            &&& attrs_of(decls0[k as int]) == Err::<FieldAttrs, AttrError>(e)
                            &&& forall|m: int|
                                0 <= m < k as int ==> attrs_of(#[trigger] decls0[m]) is Ok
                        });
                    }
                }
                return Err(e);
            },
            Ok(at) => {
                let ghost out_pre = out@;
                if !at.skip {
                    let disp = title_case(d.name.as_str());
                    out.push(
                        ReflectField {
                            name: disp,
                            opts: FieldOptions { range: at.range },
                            value: d.value,
                        },
                    );
                    proof {
                        assert(keeps(decls0[k as int]));
                        assert(models_of(out@) =~= models_of(out_pre) + seq![
                            model_of(decls0[k as int]),
                        ]);
                        assert(models_of(out@) + spec_descriptors(decls0.skip(k as int + 1)) =~= models_of(
                            out_pre,
                        ) + spec_descriptors(rest));
                    }
                } else {
                    proof {
                        assert(!keeps(decls0[k as int]));
                        assert(spec_descriptors(rest) == spec_descriptors(
                            decls0.skip(k as int + 1),
                        ));
                    }
                }
            },
        }
        k = k + 1;
    }
    proof {
        assert(decls0.skip(n as int) =~= Seq::<FieldDecl>::empty());
        assert(spec_descriptors(decls0.skip(n as int)) =~= Seq::<FieldModel>::empty());
        assert(models_of(out@) =~= models_of(out@) + Seq::<FieldModel>::empty());
    }
    Ok(out)
}

/// Law: the enumeration yields exactly one descriptor per kept
/// declaration, in declaration order: descriptor `k` is the model of the
/// `k`-th kept declaration.
pub proof fn lemma_enumeration_order(decls: Seq<FieldDecl>)
    ensures
        spec_descriptors(decls) == spec_kept(decls).map_values(|d: FieldDecl| model_of(d)),
        spec_descriptors(decls).len() == spec_kept(decls).len(),
    decreases decls.len(),
{
    if decls.len() == 0 {
        assert(spec_kept(decls).map_values(|d: FieldDecl| model_of(d)) =~= Seq::<
            FieldModel,
        >::empty());
    } else {
        lemma_enumeration_order(decls.drop_first());
        let restk = spec_kept(decls.drop_first());
        if keeps(decls.first()) {
            assert((seq![decls.first()] + restk).map_values(|d: FieldDecl| model_of(d)) =~= seq![
                model_of(decls.first()),
            ] + restk.map_values(|d: FieldDecl| model_of(d)));
        }
    }
}

/// Law: a skipped or malformed declaration contributes nothing: every
/// kept declaration parsed and is not marked skipped.
pub proof fn lemma_skipped_fields_absent(decls: Seq<FieldDecl>)
    ensures
        forall|j: int| 0 <= j < spec_kept(decls).len() ==> keeps(#[trigger] spec_kept(decls)[j]),
    decreases decls.len(),
{
    if decls.len() > 0 {
        lemma_skipped_fields_absent(decls.drop_first());
        let restk = spec_kept(decls.drop_first());
        assert forall|j: int| 0 <= j < spec_kept(decls).len() implies keeps(
            #[trigger] spec_kept(decls)[j],
        ) by {
            if keeps(decls.first()) {
                if j > 0 {
                    assert(spec_kept(decls)[j] == restk[j - 1]);
                }
            } else {
                assert(spec_kept(decls)[j] == restk[j]);
            }
        }
    }
}

} // verus!
