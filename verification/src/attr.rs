//! Per-field annotation tokens and their parsing: the `skip` mark and the
//! `range = <min>, <max>` option.

use vstd::prelude::*;

verus! {

/// One token of a field's annotation list.
pub enum AttrToken {
    /// A word, such as `skip` or `range`.
    Ident(String),
    /// A punctuation character, such as `=` or `,`.
    Punct(char),
    /// An integer literal: a range bound.
    Literal(i32),
}

/// Why a field's annotation list was rejected.  Each variant names the
/// first spot where a `range` annotation departs from the required
/// `range = <literal> , <literal>` token shape.
#[derive(Debug, PartialEq, Eq, Structural)]
pub enum AttrError {
    /// `range` is not followed by a punctuation token.
    NoPunctAfterRange,
    /// `range` is followed by punctuation other than `=`.
    NotEquals,
    /// No literal stands where the lower bound should.
    NoMinLiteral,
    /// No punctuation token follows the lower bound.
    NoPunctAfterMin,
    /// The punctuation after the lower bound is not `,`.
    NotComma,
    /// No literal stands where the upper bound should.
    NoMaxLiteral,
}

/// The parsed annotations of one field: whether it is skipped, and its
/// numeric range if one was given.
#[derive(Debug, PartialEq, Eq)]
pub struct FieldAttrs {
    pub skip: bool,
    pub range: Option<(i32, i32)>,
}

/// The attributes before any annotation token has been read.
pub open spec fn spec_default_attrs() -> FieldAttrs {
    FieldAttrs { skip: false, range: None }
}

/// What a token list means, read left to right over the attributes
/// accumulated so far: `skip` marks the field skipped; `range` must be
/// followed by `= <literal> , <literal>` and sets the range, a later
/// `range` overriding an earlier one; any other token is ignored.
pub open spec fn spec_parse_attrs(toks: Seq<AttrToken>, acc: FieldAttrs) -> Result<
    FieldAttrs,
    AttrError,
>
    decreases toks.len(), 1int,
{
    if toks.len() == 0 {
        Ok(acc)
    } else {
        match toks[0] {
            AttrToken::Ident(name) => {
                if name@ == "skip"@ {
                    spec_parse_attrs(toks.skip(1), FieldAttrs { skip: true, range: acc.range })
                } else if name@ == "range"@ {
                    spec_parse_range(toks, acc)
                } else {
                    spec_parse_attrs(toks.skip(1), acc)
                }
            },
            _ => spec_parse_attrs(toks.skip(1), acc),
        }
    }
}

/// The required token shape after a `range` word: `= <literal> , <literal>`.
/// On that shape the bounds become the accumulated range and reading goes
/// on after them; on any other shape the whole list is rejected.
pub open spec fn spec_parse_range(toks: Seq<AttrToken>, acc: FieldAttrs) -> Result<
    FieldAttrs,
    AttrError,
>
    decreases toks.len(), 0int,
{
    if toks.len() < 2 || !(toks[1] is Punct) {
        Err(AttrError::NoPunctAfterRange)
    } else if !(toks[1] == AttrToken::Punct('=')) {
        Err(AttrError::NotEquals)
    } else if toks.len() < 3 || !(toks[2] is Literal) {
        Err(AttrError::NoMinLiteral)
    } else if toks.len() < 4 || !(toks[3] is Punct) {
        Err(AttrError::NoPunctAfterMin)
    } else if !(toks[3] == AttrToken::Punct(',')) {
        Err(AttrError::NotComma)
    } else if toks.len() < 5 || !(toks[4] is Literal) {
        Err(AttrError::NoMaxLiteral)
    } else {
        spec_parse_attrs(
            toks.skip(5),
            FieldAttrs { skip: acc.skip, range: Some((toks[2]->Literal_0, toks[4]->Literal_0)) },
        )
    }
}

/// Parses one field's annotation tokens, exactly as `spec_parse_attrs`
/// reads them from default attributes.
pub fn parse_field_attrs(toks: &Vec<AttrToken>) -> (r: Result<FieldAttrs, AttrError>)
    ensures
        r == spec_parse_attrs(toks@, spec_default_attrs()),
{
    let skip_word: String = String::from_str("skip");
    let range_word: String = String::from_str("range");
    let mut skip: bool = false;
    let mut range: Option<(i32, i32)> = None;
    let mut i: usize = 0;
    proof {
        assert(toks@.skip(0) =~= toks@);
    }
    while i < toks.len()
        invariant
            i <= toks@.len(),
            skip_word@ == "skip"@,
            range_word@ == "range"@,
            spec_parse_attrs(toks@, spec_default_attrs()) == spec_parse_attrs(
                toks@.skip(i as int),
                FieldAttrs { skip, range },
            ),
        decreases toks@.len() - i,
    {
        let ghost rest = toks@.skip(i as int);
        let ghost acc = FieldAttrs { skip, range };
        proof {
            assert(rest[0] == toks@[i as int]);
            assert(rest.skip(1) =~= toks@.skip(i as int + 1));
        }
        match &toks[i] {
            AttrToken::Ident(name) => {
                if *name == skip_word {
                    skip = true;
                    i = i + 1;
                } else if *name == range_word {
                    proof {
                        assert(spec_parse_attrs(rest, acc) == spec_parse_range(rest, acc));
                    }
                    if i + 1 >= toks.len() {
                        return Err(AttrError::NoPunctAfterRange);
                    }
                    match &toks[i + 1] {
                        AttrToken::Punct(p) => {
                            if *p != '=' {
                                return Err(AttrError::NotEquals);
                            }
                        },
                        _ => {
                            return Err(AttrError::NoPunctAfterRange);
                        },
                    }
                    if i + 2 >= toks.len() {
                        return Err(AttrError::NoMinLiteral);
                    }
                    let a: i32 = match &toks[i + 2] {
                        AttrToken::Literal(v) => *v,
                        _ => {
                            return Err(AttrError::NoMinLiteral);
                        },
                    };
                    if i + 3 >= toks.len() {
                        return Err(AttrError::NoPunctAfterMin);
                    }
                    match &toks[i + 3] {
                        AttrToken::Punct(p) => {
                            if *p != ',' {
                                return Err(AttrError::NotComma);
                            }
                        },
                        _ => {
                            return Err(AttrError::NoPunctAfterMin);
                        },
                    }
                    if i + 4 >= toks.len() {
                        return Err(AttrError::NoMaxLiteral);
                    }
                    let b: i32 = match &toks[i + 4] {
                        AttrToken::Literal(v) => *v,
                        _ => {
                            return Err(AttrError::NoMaxLiteral);
                        },
                    };
                    range = Some((a, b));
                    i = i + 5;
                    proof {
                        assert(rest.skip(5) =~= toks@.skip(i as int));
                    }
                } else {
                    i = i + 1;
                }
            },
            _ => {
                i = i + 1;
            },
        }
    }
    proof {
        assert(toks@.skip(i as int) =~= Seq::<AttrToken>::empty());
    }
    Ok(FieldAttrs { skip, range })
}

/// Whether the tokens after position `i` have the exact
/// `= <literal> , <literal>` shape that a `range` word requires.
pub open spec fn range_shape_at(toks: Seq<AttrToken>, i: int) -> bool {
    &&& i + 5 <= toks.len()
    &&& toks[i + 1] == AttrToken::Punct('=')
    &&& toks[i + 2] is Literal
    &&& toks[i + 3] == AttrToken::Punct(',')
    &&& toks[i + 4] is Literal
}

/// Law: a field annotated with exactly `range = a, b` carries the range
/// `(a, b)`, and the annotation marks nothing else.
pub proof fn lemma_range_annotation(toks: Seq<AttrToken>, acc: FieldAttrs, a: i32, b: i32)
    requires
        toks.len() == 5,
        toks[0] matches AttrToken::Ident(n) && n@ == "range"@,
        toks[1] == AttrToken::Punct('='),
        toks[2] == AttrToken::Literal(a),
        toks[3] == AttrToken::Punct(','),
        toks[4] == AttrToken::Literal(b),
    ensures
        spec_parse_attrs(toks, acc) == Ok::<FieldAttrs, AttrError>(
            FieldAttrs { skip: acc.skip, range: Some((a, b)) },
        ),
{
    reveal_strlit("skip");
    reveal_strlit("range");
    assert("skip"@.len() == 4);
    assert("range"@.len() == 5);
    assert(toks.skip(5) =~= Seq::<AttrToken>::empty());
    assert(spec_parse_attrs(toks, acc) == spec_parse_range(toks, acc));
    assert(spec_parse_range(toks, acc) == spec_parse_attrs(
        toks.skip(5),
        FieldAttrs { skip: acc.skip, range: Some((a, b)) },
    ));
    assert(spec_parse_attrs(toks.skip(5), FieldAttrs { skip: acc.skip, range: Some((a, b)) })
        == Ok::<FieldAttrs, AttrError>(FieldAttrs { skip: acc.skip, range: Some((a, b)) }));
}

/// Law: a field none of whose annotation tokens is the word `range`
/// carries no range beyond the accumulated one; from default attributes,
/// no range at all.
pub proof fn lemma_no_range_annotation(toks: Seq<AttrToken>, acc: FieldAttrs)
    requires
        forall|i: int|
            0 <= i < toks.len() ==> !((#[trigger] toks[i]) matches AttrToken::Ident(n) && n@
                == "range"@),
    ensures
        spec_parse_attrs(toks, acc) is Ok,
        spec_parse_attrs(toks, acc)->Ok_0.range == acc.range,
    decreases toks.len(),
{
    if toks.len() > 0 {
        assert(!(toks[0] matches AttrToken::Ident(n) && n@ == "range"@));
        assert forall|i: int|
            0 <= i < toks.skip(1).len() implies !((#[trigger] toks.skip(1)[i]) matches AttrToken::Ident(
            n,
        ) && n@ == "range"@) by {
            assert(toks.skip(1)[i] == toks[i + 1]);
        }
        match toks[0] {
            AttrToken::Ident(n0) => {
                if n0@ == "skip"@ {
                    lemma_no_range_annotation(
                        toks.skip(1),
                        FieldAttrs { skip: true, range: acc.range },
                    );
                } else {
                    lemma_no_range_annotation(toks.skip(1), acc);
                }
            },
            _ => {
                lemma_no_range_annotation(toks.skip(1), acc);
            },
        }
    }
}

/// Law: an annotation list in which some `range` word is not followed by
/// the exact `= <literal> , <literal>` shape is rejected, whatever else
/// the list holds.
pub proof fn lemma_malformed_range_rejected(toks: Seq<AttrToken>, acc: FieldAttrs, i: int)
    requires
        0 <= i < toks.len(),
        toks[i] matches AttrToken::Ident(n) && n@ == "range"@,
        !range_shape_at(toks, i),
    ensures
        spec_parse_attrs(toks, acc) is Err,
    decreases toks.len(),
{
    reveal_strlit("skip");
    reveal_strlit("range");
    assert("skip"@.len() == 4);
    assert("range"@.len() == 5);
    match toks[0] {
        AttrToken::Ident(n0) => {
            if n0@ == "skip"@ {
                assert(i >= 1);
                assert(toks.skip(1)[i - 1] == toks[i]);
                assert(!range_shape_at(toks.skip(1), i - 1));
                lemma_malformed_range_rejected(
                    toks.skip(1),
                    FieldAttrs { skip: true, range: acc.range },
                    i - 1,
                );
            } else if n0@ == "range"@ {
                if i == 0 {
                    assert(spec_parse_range(toks, acc) is Err);
                } else {
                    if range_shape_at(toks, 0) {
                        assert(i >= 5);
                        assert(toks.skip(5)[i - 5] == toks[i]);
                        assert(!range_shape_at(toks.skip(5), i - 5));
                        lemma_malformed_range_rejected(
                            toks.skip(5),
                            FieldAttrs {
                                skip: acc.skip,
                                range: Some((toks[2]->Literal_0, toks[4]->Literal_0)),
                            },
                            i - 5,
                        );
                    } else {
                        assert(spec_parse_range(toks, acc) is Err);
                    }
                }
            } else {
                assert(i >= 1);
                assert(toks.skip(1)[i - 1] == toks[i]);
                assert(!range_shape_at(toks.skip(1), i - 1));
                lemma_malformed_range_rejected(toks.skip(1), acc, i - 1);
            }
        },
        _ => {
            assert(i >= 1);
            assert(toks.skip(1)[i - 1] == toks[i]);
            assert(!range_shape_at(toks.skip(1), i - 1));
            lemma_malformed_range_rejected(toks.skip(1), acc, i - 1);
        },
    }
}

} // verus!
