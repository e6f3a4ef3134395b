use vstd::prelude::*;

use crate::round_trip::{lemma_parse_sigs, lemma_sigs_single};
use crate::signature::{
    category, lemma_views, parse_signature, sig, terminated, views, ArgType, DbusType, Signature,
    SignatureError, SimpleType, Ty, MAX_SIGNATURE_LEN, TERMINATOR,
};

verus! {

/// The static shape of a declared type, from which its signature is inferred.
pub enum Shape {
    /// A scalar of a simple type.
    Scalar(SimpleType),
    /// A struct with positional fields: the shapes of the fields, in order.
    Tuple(Vec<Shape>),
    /// A struct with named fields: the shapes of the fields, in order.
    Record(Vec<Shape>),
    /// A struct with no fields and no braces.
    Unit,
    /// A homogeneous list of one shape.
    List(Box<Shape>),
    /// A value of any type, carried with its own signature.
    Any,
    /// An enum: for each variant, in order, the number of its fields.
    Choice(Vec<usize>),
    /// A union.
    Union,
}

/// Why no signature can be inferred for a shape.
#[derive(Debug, Clone, Copy, PartialEq, Eq, Structural)]
pub enum ShapeError {
    /// A unit struct has no signature of its own.
    UnitStruct,
    /// An enum without variants.
    NoVariants,
    /// An enum whose variant at this index is the first to carry fields.
    VariantWithFields(usize),
    /// A union.
    Union,
    /// A given signature holds other than exactly one type.
    ExpectedOneType,
}

/// The wire category of a type and the signature text that a binding embeds.
#[derive(Debug)]
pub struct ArgImpl {
    pub arg_type: ArgType,
    pub signature: String,
}

/// The index of the first variant at or after `i` that carries fields, or
/// the number of variants if none does.
pub open spec fn first_with_fields(cs: Seq<usize>, i: int) -> int
    decreases cs.len() - i,
{
    if i < 0 || i >= cs.len() {
        cs.len() as int
    } else if cs[i] != 0 {
        i
    } else {
        first_with_fields(cs, i + 1)
    }
}

/// The type inferred for a shape.
pub open spec fn infer(s: Shape) -> Result<Ty, ShapeError>
    decreases s, 0int,
{
    match s {
        Shape::Scalar(k) => Ok(Ty::Simple(k)),
        Shape::Tuple(v) => match infer_from(v@, 0) {
            Ok(ms) => Ok(Ty::Struct(ms)),
            Err(e) => Err(e),
        },
        Shape::Record(_) => Ok(Ty::Dict(SimpleType::String, Box::new(Ty::Variant))),
        Shape::Unit => Err(ShapeError::UnitStruct),
        Shape::List(e) => match infer(*e) {
            Ok(t) => Ok(Ty::Array(Box::new(t))),
            Err(e) => Err(e),
        },
        Shape::Any => Ok(Ty::Variant),
        Shape::Choice(cs) => if cs@.len() == 0 {
            Err(ShapeError::NoVariants)
        } else if first_with_fields(cs@, 0) == cs@.len() {
            Ok(Ty::Simple(SimpleType::String))
        } else {
            Err(ShapeError::VariantWithFields(first_with_fields(cs@, 0) as usize))
        },
        Shape::Union => Err(ShapeError::Union),
    }
}

/// The types inferred for `v[i..]`, or the first error among them.
pub open spec fn infer_from(v: Seq<Shape>, i: int) -> Result<Seq<Ty>, ShapeError>
    decreases v, v.len() - i,
{
    if 0 <= i < v.len() {
        match infer(v[i]) {
            Ok(t) => match infer_from(v, i + 1) {
                Ok(ts) => Ok(seq![t] + ts),
                Err(e) => Err(e),
            },
            Err(e) => Err(e),
        }
    } else {
        Ok(Seq::empty())
    }
}

/// The type inferred for a declared type of this shape; `as_struct` asks that a
/// struct with named fields, or with none, be encoded as a struct.
pub open spec fn infer_arg(s: Shape, as_struct: bool) -> Result<Ty, ShapeError> {
    match s {
        Shape::Record(v) if as_struct => match infer_from(v@, 0) {
            Ok(ms) => Ok(Ty::Struct(ms)),
            Err(e) => Err(e),
        },
        Shape::Unit if as_struct => Ok(Ty::Struct(Seq::empty())),
        _ => infer(s),
    }
}

/// `r` as the type it holds, or its error.
pub open spec fn type_result_view(r: Result<DbusType, ShapeError>) -> Result<Ty, ShapeError> {
    match r {
        Ok(t) => Ok(t@),
        Err(e) => Err(e),
    }
}

/// `r` as the types it holds, or its error.
pub open spec fn types_result_view(r: Result<Vec<DbusType>, ShapeError>) -> Result<Seq<Ty>, ShapeError> {
    match r {
        Ok(v) => Ok(views(v@)),
        Err(e) => Err(e),
    }
}

/// `r` holds the category and canonical text of what `t` holds, or its error.
pub open spec fn describes(r: Result<ArgImpl, ShapeError>, t: Result<Ty, ShapeError>) -> bool {
    match t {
        Ok(t) => r matches Ok(a) && a.arg_type == category(t) && a.signature@ == sig(t),
        Err(e) => r == Err::<ArgImpl, ShapeError>(e),
    }
}

impl Shape {
    /// The type inferred for this shape.
    pub fn to_type(&self) -> (r: Result<DbusType, ShapeError>)
        ensures
            type_result_view(r) == infer(*self),
        decreases *self, 0int,
    {
        match self {
            Shape::Scalar(k) => Ok(DbusType::Simple(*k)),
            Shape::Tuple(v) => {
                proof {
                    assert(decreases_to!(*self => self->Tuple_0));
                }
                match Shape::types_from(v, 0) {
                    Ok(ms) => Ok(DbusType::Struct(ms)),
                    Err(e) => Err(e),
                }
            },
            Shape::Record(_) => Ok(
                DbusType::Dict(SimpleType::String, Box::new(DbusType::Variant)),
            ),
            Shape::Unit => Err(ShapeError::UnitStruct),
            Shape::List(e) => match e.to_type() {
                Ok(t) => Ok(DbusType::Array(Box::new(t))),
                Err(e) => Err(e),
            },
            Shape::Any => Ok(DbusType::Variant),
            Shape::Choice(cs) => {
                if cs.len() == 0 {
                    return Err(ShapeError::NoVariants);
                }
                let mut i: usize = 0;
                while i < cs.len()
                    invariant
                        i <= cs.len(),
                        *self == Shape::Choice(*cs),
                        cs.len() > 0,
                        first_with_fields(cs@, 0) == first_with_fields(cs@, i as int),
                    decreases cs.len() - i,
                {
                    if cs[i] != 0 {
                        assert(first_with_fields(cs@, i as int) == i);
                        return Err(ShapeError::VariantWithFields(i));
                    }
                    i = i + 1;
                }
                Ok(DbusType::Simple(SimpleType::String))
            },
            Shape::Union => Err(ShapeError::Union),
        }
    }

    /// The types inferred for `v[i..]`, or the first error among them.
    fn types_from(v: &Vec<Shape>, i: usize) -> (r: Result<Vec<DbusType>, ShapeError>)
        ensures
            types_result_view(r) == infer_from(v@, i as int),
        decreases *v, v@.len() - i, 
    {
        if i >= v.len() {
            let ms: Vec<DbusType> = Vec::new();
            proof {
                lemma_views(ms@);
                assert(views(ms@) =~= Seq::empty());
            }
            return Ok(ms);
        }
        proof {
            assert(decreases_to!(*v => v[i as int]));
        }
        let t = match v[i].to_type() {
            Ok(t) => t,
            Err(e) => return Err(e),
        };
        match Shape::types_from(v, i + 1) {
            Ok(ms) => {
                let ghost old_ms = ms@;
                let ghost tv = t@;
                let mut ms = ms;
                ms.insert(0, t);
                proof {
                    lemma_views(old_ms);
                    lemma_views(ms@);
                    assert(views(ms@) =~= seq![tv] + views(old_ms));
                }
                Ok(ms)
            },
            Err(e) => Err(e),
        }
    }
}

/// The wire category and canonical signature inferred for a shape.
pub fn classify(shape: &Shape) -> (r: Result<ArgImpl, ShapeError>)
    ensures
        describes(r, infer(*shape)),
{
    match shape.to_type() {
        Ok(t) => Ok(ArgImpl { arg_type: t.arg_type(), signature: t.to_signature() }),
        Err(e) => Err(e),
    }
}

/// What a binding for a declared type of this shape uses: with a signature
/// given, its single type and its text ending in a terminator; else the
/// inferred type and its canonical text with a terminator added.
pub open spec fn arg_ok(r: Result<ArgImpl, ShapeError>, shape: Shape, signature: Option<&Signature>, as_struct: bool) -> bool {
    match signature {
        Some(given) => if given.parsed@.len() == 1 {
            r matches Ok(a) && a.arg_type == category(given.parsed@[0]@) && a.signature@ == terminated(given.src@)
        } else {
            r == Err::<ArgImpl, ShapeError>(ShapeError::ExpectedOneType)
        },
        None => match infer_arg(shape, as_struct) {
            Ok(t) => r matches Ok(a) && a.arg_type == category(t) && a.signature@ == sig(t).push(TERMINATOR),
            Err(e) => r == Err::<ArgImpl, ShapeError>(e),
        },
    }
}

/// The wire category and signature text of a binding for a declared type of
/// this shape: from `signature` where one is given, else inferred, with
/// `as_struct` asking that a struct with named fields, or none, be a struct.
pub fn arg(shape: &Shape, signature: Option<&Signature>, as_struct: bool) -> (r: Result<ArgImpl, ShapeError>)
    ensures
        arg_ok(r, *shape, signature, as_struct),
{
    if let Some(given) = signature {
        if given.parsed.len() != 1 {
            return Err(ShapeError::ExpectedOneType);
        }
        return Ok(ArgImpl { arg_type: given.parsed[0].arg_type(), signature: given.expand_to_signature() });
    }
    let inferred = match shape {
        Shape::Record(v) if as_struct => match Shape::types_from(v, 0) {
            Ok(ms) => Ok(DbusType::Struct(ms)),
            Err(e) => Err(e),
        },
        Shape::Unit if as_struct => {
            let ms: Vec<DbusType> = Vec::new();
            proof {
                lemma_views(ms@);
                assert(views(ms@) =~= Seq::empty());
            }
            Ok(DbusType::Struct(ms))
        },
        _ => shape.to_type(),
    };
    match inferred {
        Ok(t) => {
            let mut text = t.to_signature();
            text.append("\0");
            proof {
                reveal_strlit("\0");
            }
            assert(text@ =~= sig(t@).push(TERMINATOR));
            Ok(ArgImpl { arg_type: t.arg_type(), signature: text })
        },
        Err(e) => Err(e),
    }
}

/// The first variant found with fields carries fields, and none before it does.
pub proof fn lemma_first_with_fields(cs: Seq<usize>, i: int, j: int)
    requires
        0 <= i <= j < cs.len(),
        cs[j] != 0,
    ensures
        i <= first_with_fields(cs, i) <= j,
        cs[first_with_fields(cs, i)] != 0,
        forall|k: int| i <= k < first_with_fields(cs, i) ==> cs[k] == 0,
    decreases cs.len() - i,
{
    if cs[i] == 0 {
        lemma_first_with_fields(cs, i + 1, j);
    }
}

/// Whatever is inferred for a declared type, its canonical text, within the
/// length limit, parses back to exactly that type, and so to a single node of
/// the same wire category.
pub proof fn lemma_arg_round_trip(shape: Shape, as_struct: bool)
    requires
        infer_arg(shape, as_struct) is Ok,
        sig(infer_arg(shape, as_struct)->Ok_0).len() <= MAX_SIGNATURE_LEN,
    ensures
        ({
            let t = infer_arg(shape, as_struct)->Ok_0;
            &&& parse_signature(sig(t)) == Ok::<Seq<Ty>, SignatureError>(seq![t])
            &&& parse_signature(sig(t)) matches Ok(ts) && ts.len() == 1 && category(ts[0]) == category(t)
        }),
{
    let t = infer_arg(shape, as_struct)->Ok_0;
    lemma_sigs_single(t);
    lemma_parse_sigs(seq![t]);
}

/// No signature is inferred for a unit struct, nor for an enum of which some
/// variant carries fields: the error names the first such variant.
pub proof fn lemma_unclassifiable(cs: Vec<usize>, j: int)
    requires
        0 <= j < cs@.len(),
        cs@[j] != 0,
    ensures
        infer(Shape::Unit) == Err::<Ty, ShapeError>(ShapeError::UnitStruct),
        infer(Shape::Choice(cs)) matches Err(ShapeError::VariantWithFields(f)) && f < cs@.len()
            && cs@[f as int] != 0 && forall|k: int| 0 <= k < f ==> cs@[k] == 0,
{
    lemma_first_with_fields(cs@, 0, j);
    let f = first_with_fields(cs@, 0);
    assert(cs@.len() == cs.len());
    assert(infer(Shape::Choice(cs)) == Err::<Ty, ShapeError>(ShapeError::VariantWithFields(f as usize)));
}

} // verus!
