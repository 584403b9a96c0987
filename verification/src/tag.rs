//! The type namer: derives the short canonical tag of a structural type
//! description, recursively, by the fixed per-form rules.  Two structurally
//! identical descriptions always receive the same tag; distinct descriptions
//! may collide, which is an accepted limitation of the naming scheme.

use vstd::prelude::*;
use vstd::string::*;

use crate::model::{
    lemma_seq_view_index, lemma_seq_view_len, type_desc_seq_view, BuildError, TypeDesc, TypeModel,
};

verus! {

/// ASCII upper-casing of one character; anything outside `'a'..='z'` is
/// returned unchanged.
pub open spec fn upper_char(c: char) -> char {
    match c {
        'a' => 'A',
        'b' => 'B',
        'c' => 'C',
        'd' => 'D',
        'e' => 'E',
        'f' => 'F',
        'g' => 'G',
        'h' => 'H',
        'i' => 'I',
        'j' => 'J',
        'k' => 'K',
        'l' => 'L',
        'm' => 'M',
        'n' => 'N',
        'o' => 'O',
        'p' => 'P',
        'q' => 'Q',
        'r' => 'R',
        's' => 'S',
        't' => 'T',
        'u' => 'U',
        'v' => 'V',
        'w' => 'W',
        'x' => 'X',
        'y' => 'Y',
        'z' => 'Z',
        _ => c,
    }
}

/// A string with its first character forced upper-case; the empty string is
/// left empty.
pub open spec fn ucfirst(s: Seq<char>) -> Seq<char> {
    if s.len() == 0 {
        s
    } else {
        seq![upper_char(s[0])] + s.skip(1)
    }
}

/// Whether a type description lies inside the supported structural grammar.
pub open spec fn supported(t: TypeModel) -> bool
    decreases t,
{
    match t {
        TypeModel::Named(_) => true,
        TypeModel::Array(e, _) => supported(*e),
        TypeModel::Tuple(es) => all_supported(es),
        TypeModel::Ptr(e, _) => supported(*e),
        TypeModel::Reference(e) => supported(*e),
        TypeModel::Slice(e) => supported(*e),
        TypeModel::Never => true,
        TypeModel::Unsupported(_) => false,
    }
}

pub open spec fn all_supported(s: Seq<TypeModel>) -> bool
    decreases s,
{
    if s.len() == 0 {
        true
    } else {
        supported(s[0]) && all_supported(s.drop_first())
    }
}

/// The textual rendering of the first unsupported form met in a left-to-right
/// traversal; the empty string where everything is supported.
pub open spec fn first_bad(t: TypeModel) -> Seq<char>
    decreases t,
{
    match t {
        TypeModel::Named(_) => Seq::<char>::empty(),
        TypeModel::Array(e, _) => first_bad(*e),
        TypeModel::Tuple(es) => first_bad_list(es),
        TypeModel::Ptr(e, _) => first_bad(*e),
        TypeModel::Reference(e) => first_bad(*e),
        TypeModel::Slice(e) => first_bad(*e),
        TypeModel::Never => Seq::<char>::empty(),
        TypeModel::Unsupported(s) => s,
    }
}

pub open spec fn first_bad_list(s: Seq<TypeModel>) -> Seq<char>
    decreases s,
{
    if s.len() == 0 {
        Seq::<char>::empty()
    } else if !supported(s[0]) {
        first_bad(s[0])
    } else {
        first_bad_list(s.drop_first())
    }
}

/// The derived tag of a supported type description.
///
/// Each rule upper-cases the first character of its result, as the naming
/// scheme demands; for composite forms this is redundant but kept so the
/// definition mirrors the stated rules exactly.
pub open spec fn tag_of(t: TypeModel) -> Seq<char>
    decreases t,
{
    match t {
        TypeModel::Named(s) => ucfirst(s),
        TypeModel::Array(e, n) => ucfirst(tag_of(*e) + "_"@ + n),
        TypeModel::Tuple(es) => if es.len() == 0 {
            "Unit"@
        } else {
            ucfirst(tags_concat(es))
        },
        TypeModel::Ptr(e, m) => ucfirst(tag_of(*e) + (if m {
            "MutPtr"@
        } else {
            "Ptr"@
        })),
        TypeModel::Reference(e) => ucfirst(tag_of(*e) + "Ref"@),
        TypeModel::Slice(e) => ucfirst(tag_of(*e) + "Slice"@),
        TypeModel::Never => "Never"@,
        TypeModel::Unsupported(_) => Seq::<char>::empty(),
    }
}

/// The tags of a tuple's element types, concatenated in order with no
/// separator.
pub open spec fn tags_concat(s: Seq<TypeModel>) -> Seq<char>
    decreases s,
{
    if s.len() == 0 {
        Seq::<char>::empty()
    } else {
        tags_concat(s.drop_last()) + tag_of(s.last())
    }
}

/// Upper-cases one character, handed over together with its one-character
/// string so the unchanged case can be returned without allocation.
fn upper_str<'a>(c: char, orig: &'a str) -> (r: &'a str)
    requires
        orig@ == seq![c],
    ensures
        r@ == seq![upper_char(c)],
{
    match c {
        'a' => {
            proof {
                reveal_strlit("A");
            }
            let r: &str = "A";
            assert(r@ =~= seq![upper_char(c)]);
            r
        },
        'b' => {
            proof {
                reveal_strlit("B");
            }
            let r: &str = "B";
            assert(r@ =~= seq![upper_char(c)]);
            r
        },
        'c' => {
            proof {
                reveal_strlit("C");
            }
            let r: &str = "C";
            assert(r@ =~= seq![upper_char(c)]);
            r
        },
        'd' => {
            proof {
                reveal_strlit("D");
            }
            let r: &str = "D";
            assert(r@ =~= seq![upper_char(c)]);
            r
        },
        'e' => {
            proof {
                reveal_strlit("E");
            }
            let r: &str = "E";
            assert(r@ =~= seq![upper_char(c)]);
            r
        },
        'f' => {
            proof {
                reveal_strlit("F");
            }
            let r: &str = "F";
            assert(r@ =~= seq![upper_char(c)]);
            r
        },
        'g' => {
            proof {
                reveal_strlit("G");
            }
            let r: &str = "G";
            assert(r@ =~= seq![upper_char(c)]);
            r
        },
        'h' => {
            proof {
                reveal_strlit("H");
            }
            let r: &str = "H";
            assert(r@ =~= seq![upper_char(c)]);
            r
        },
        'i' => {
            proof {
                reveal_strlit("I");
            }
            let r: &str = "I";
            assert(r@ =~= seq![upper_char(c)]);
            r
        },
        'j' => {
            proof {
                reveal_strlit("J");
            }
            let r: &str = "J";
            assert(r@ =~= seq![upper_char(c)]);
            r
        },
        'k' => {
            proof {
                reveal_strlit("K");
            }
            let r: &str = "K";
            assert(r@ =~= seq![upper_char(c)]);
            r
        },
        'l' => {
            proof {
                reveal_strlit("L");
            }
            let r: &str = "L";
            assert(r@ =~= seq![upper_char(c)]);
            r
        },
        'm' => {
            proof {
                reveal_strlit("M");
            }
            let r: &str = "M";
            assert(r@ =~= seq![upper_char(c)]);
            r
        },
        'n' => {
            proof {
                reveal_strlit("N");
            }
            let r: &str = "N";
            assert(r@ =~= seq![upper_char(c)]);
            r
        },
        'o' => {
            proof {
                reveal_strlit("O");
            }
            let r: &str = "O";
            assert(r@ =~= seq![upper_char(c)]);
            r
        },
        'p' => {
            proof {
                reveal_strlit("P");
            }
            let r: &str = "P";
            assert(r@ =~= seq![upper_char(c)]);
            r
        },
        'q' => {
            proof {
                reveal_strlit("Q");
            }
            let r: &str = "Q";
            assert(r@ =~= seq![upper_char(c)]);
            r
        },
        'r' => {
            proof {
                reveal_strlit("R");
            }
            let r: &str = "R";
            assert(r@ =~= seq![upper_char(c)]);
            r
        },
        's' => {
            proof {
                reveal_strlit("S");
            }
            let r: &str = "S";
            assert(r@ =~= seq![upper_char(c)]);
            r
        },
        't' => {
            proof {
                reveal_strlit("T");
            }
            let r: &str = "T";
            assert(r@ =~= seq![upper_char(c)]);
            r
        },
        'u' => {
            proof {
                reveal_strlit("U");
            }
            let r: &str = "U";
            assert(r@ =~= seq![upper_char(c)]);
            r
        },
        'v' => {
            proof {
                reveal_strlit("V");
            }
            let r: &str = "V";
            assert(r@ =~= seq![upper_char(c)]);
            r
        },
        'w' => {
            proof {
                reveal_strlit("W");
            }
            let r: &str = "W";
            assert(r@ =~= seq![upper_char(c)]);
            r
        },
        'x' => {
            proof {
                reveal_strlit("X");
            }
            let r: &str = "X";
            assert(r@ =~= seq![upper_char(c)]);
            r
        },
        'y' => {
            proof {
                reveal_strlit("Y");
            }
            let r: &str = "Y";
            assert(r@ =~= seq![upper_char(c)]);
            r
        },
        'z' => {
            proof {
                reveal_strlit("Z");
            }
            let r: &str = "Z";
            assert(r@ =~= seq![upper_char(c)]);
            r
        },
        _ => {
            assert(orig@ =~= seq![upper_char(c)]);
            orig
        },
    }
}

/// A fresh string equal to `s` with its first character upper-cased.
pub fn ucfirst_string(s: &str) -> (r: String)
    ensures
        r@ == ucfirst(s@),
{
    let n = s.unicode_len();
    if n == 0 {
        let r = String::new();
        assert(r@ =~= ucfirst(s@));
        r
    } else {
        let c = s.get_char(0);
        let first = s.substring_char(0, 1);
        let rest = s.substring_char(1, n);
        proof {
            assert(first@ =~= seq![c]);
        }
        let head = upper_str(c, first);
        let mut out = String::from_str(head);
        out.append(rest);
        proof {
            assert(out@ =~= ucfirst(s@));
        }
        out
    }
}

pub proof fn lemma_all_supported_push(s: Seq<TypeModel>, x: TypeModel)
    ensures
        all_supported(s.push(x)) <==> (all_supported(s) && supported(x)),
    decreases s,
{
    let q = s.push(x);
    assert(q.len() == s.len() + 1);
    if s.len() == 0 {
        assert(q[0] == x);
        assert(q.drop_first() =~= Seq::<TypeModel>::empty());
        assert(all_supported(Seq::<TypeModel>::empty()));
    } else {
        assert(q[0] == s[0]);
        assert(q.drop_first() =~= s.drop_first().push(x));
        lemma_all_supported_push(s.drop_first(), x);
    }
}

pub proof fn lemma_tags_concat_push(s: Seq<TypeModel>, x: TypeModel)
    ensures
        tags_concat(s.push(x)) == tags_concat(s) + tag_of(x),
{
    let q = s.push(x);
    assert(q.drop_last() =~= s);
    assert(q.last() == x);
}

pub proof fn lemma_first_bad_list_at(s: Seq<TypeModel>, i: int)
    requires
        0 <= i < s.len(),
        all_supported(s.take(i)),
        !supported(s[i]),
    ensures
        !all_supported(s),
        first_bad_list(s) == first_bad(s[i]),
    decreases i,
{
    if i > 0 {
        assert(s.take(i)[0] == s[0]);
        assert(s.take(i).drop_first() =~= s.drop_first().take(i - 1));
        lemma_first_bad_list_at(s.drop_first(), i - 1);
        assert(s.drop_first()[i - 1] == s[i]);
    }
}

/// Derives the tag of a type description, or reports the first unsupported
/// form met in a left-to-right traversal.  Succeeds exactly on the supported
/// grammar: a failure is fatal for the whole generation and never produces a
/// partial tag.
pub fn derive_tag(t: &TypeDesc) -> (r: Result<String, BuildError>)
    ensures
        r is Ok <==> supported(t@),
        r is Ok ==> r->Ok_0@ == tag_of(t@),
        r is Err ==> r->Err_0@ == first_bad(t@),
    decreases *t,
{
    match t {
        TypeDesc::Named(s) => {
            proof {
                assert(supported(t@));
                assert(tag_of(t@) == ucfirst(s@));
            }
            Ok(ucfirst_string(s.as_str()))
        },
        TypeDesc::Array(e, n) => {
            proof {
                assert(supported(t@) == supported((**e)@));
                assert(tag_of(t@) == ucfirst(tag_of((**e)@) + "_"@ + n@));
                assert(first_bad(t@) == first_bad((**e)@));
            }
            match derive_tag(&**e) {
                Ok(inner) => {
                    let mut raw = inner;
                    raw.append("_");
                    raw.append(n.as_str());
                    assert(raw@ == tag_of((**e)@) + "_"@ + n@);
                    Ok(ucfirst_string(raw.as_str()))
                },
                Err(bad) => Err(bad),
            }
        },
        TypeDesc::Tuple(es) => {
            if es.len() == 0 {
                proof {
                    assert(type_desc_seq_view(es@) =~= Seq::<TypeModel>::empty());
                    assert(all_supported(Seq::<TypeModel>::empty()));
                    assert(supported(t@));
                    assert(tag_of(t@) == "Unit"@);
                }
                Ok(String::from_str("Unit"))
            } else {
                let ghost mv = type_desc_seq_view(es@);
                proof {
                    lemma_seq_view_len(es@);
                }
                let mut raw = String::new();
                let mut i: usize = 0;
                while i < es.len()
                    invariant
                        i as int <= es@.len(),
                        *t == TypeDesc::Tuple(*es),
                        mv == type_desc_seq_view(es@),
                        mv.len() == es@.len(),
                        all_supported(mv.take(i as int)),
                        raw@ == tags_concat(mv.take(i as int)),
                    decreases es@.len() - i,
                {
                    proof {
                        lemma_seq_view_index(es@, i as int);
                        assert(decreases_to!(*t => (*t)->Tuple_0));
                        assert(decreases_to!(*es => es@[i as int]));
                        assert(decreases_to!(*t => es@[i as int]));
                    }
                    match derive_tag(&es[i]) {
                        Ok(part) => {
                            raw.append(part.as_str());
                            proof {
                                assert(mv.take(i as int).push(mv[i as int]) =~= mv.take(
                                    i + 1 as int,
                                ));
                                lemma_all_supported_push(mv.take(i as int), mv[i as int]);
                                lemma_tags_concat_push(mv.take(i as int), mv[i as int]);
                            }
                            i += 1;
                        },
                        Err(bad) => {
                            proof {
                                lemma_first_bad_list_at(mv, i as int);
                                assert(t@ == TypeModel::Tuple(mv));
                            }
                            return Err(bad);
                        },
                    }
                }
                proof {
                    assert(mv.take(es@.len() as int) =~= mv);
                    assert(t@ == TypeModel::Tuple(mv));
                }
                Ok(ucfirst_string(raw.as_str()))
            }
        },
        TypeDesc::Ptr(e, m) => {
            proof {
                assert(supported(t@) == supported((**e)@));
                assert(first_bad(t@) == first_bad((**e)@));
            }
            match derive_tag(&**e) {
                Ok(inner) => {
                    let mut raw = inner;
                    if *m {
                        raw.append("MutPtr");
                    } else {
                        raw.append("Ptr");
                    }
                    assert(raw@ == tag_of((**e)@) + (if *m {
                        "MutPtr"@
                    } else {
                        "Ptr"@
                    }));
                    Ok(ucfirst_string(raw.as_str()))
                },
                Err(bad) => Err(bad),
            }
        },
        TypeDesc::Reference(e) => {
            proof {
                assert(supported(t@) == supported((**e)@));
                assert(tag_of(t@) == ucfirst(tag_of((**e)@) + "Ref"@));
                assert(first_bad(t@) == first_bad((**e)@));
            }
            match derive_tag(&**e) {
                Ok(inner) => {
                    let mut raw = inner;
                    raw.append("Ref");
                    Ok(ucfirst_string(raw.as_str()))
                },
                Err(bad) => Err(bad),
            }
        },
        TypeDesc::Slice(e) => {
            proof {
                assert(supported(t@) == supported((**e)@));
                assert(tag_of(t@) == ucfirst(tag_of((**e)@) + "Slice"@));
                assert(first_bad(t@) == first_bad((**e)@));
            }
            match derive_tag(&**e) {
                Ok(inner) => {
                    let mut raw = inner;
                    raw.append("Slice");
                    Ok(ucfirst_string(raw.as_str()))
                },
                Err(bad) => Err(bad),
            }
        },
        TypeDesc::Never => {
            proof {
                assert(supported(t@));
                assert(tag_of(t@) == "Never"@);
            }
            Ok(String::from_str("Never"))
        },
        TypeDesc::Unsupported(s) => {
            proof {
                assert(!supported(t@));
                assert(first_bad(t@) == s@);
            }
            Err(BuildError::UnsupportedType(s.clone()))
        },
    }
}

} // verus!
