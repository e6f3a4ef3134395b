use vstd::prelude::*;

use crate::round_trip::lemma_parse_sound;

verus! {

/// The eleven scalar wire kinds; each has a one-character symbol.
#[derive(Debug, Clone, Copy, PartialEq, Eq, Structural)]
pub enum SimpleType {
    /// `y`
    Byte,
    /// `b`
    Bool,
    /// `n`
    Int16,
    /// `q`
    UInt16,
    /// `i`
    Int32,
    /// `u`
    UInt32,
    /// `d`
    Double,
    /// `h`
    UnixFd,
    /// `s`
    String,
    /// `o`
    ObjectPath,
    /// `g`
    Signature,
}

/// The symbol of a simple type in the signature grammar.
pub open spec fn symbol(t: SimpleType) -> char {
    match t {
        SimpleType::Byte => 'y',
        SimpleType::Bool => 'b',
        SimpleType::Int16 => 'n',
        SimpleType::UInt16 => 'q',
        SimpleType::Int32 => 'i',
        SimpleType::UInt32 => 'u',
        SimpleType::Double => 'd',
        SimpleType::UnixFd => 'h',
        SimpleType::String => 's',
        SimpleType::ObjectPath => 'o',
        SimpleType::Signature => 'g',
    }
}

/// The simple type whose symbol is `c`, if there is one.
pub open spec fn simple_of(c: char) -> Option<SimpleType> {
    if c == 'y' {
        Some(SimpleType::Byte)
    } else if c == 'b' {
        Some(SimpleType::Bool)
    } else if c == 'n' {
        Some(SimpleType::Int16)
    } else if c == 'q' {
        Some(SimpleType::UInt16)
    } else if c == 'i' {
        Some(SimpleType::Int32)
    } else if c == 'u' {
        Some(SimpleType::UInt32)
    } else if c == 'd' {
        Some(SimpleType::Double)
    } else if c == 'h' {
        Some(SimpleType::UnixFd)
    } else if c == 's' {
        Some(SimpleType::String)
    } else if c == 'o' {
        Some(SimpleType::ObjectPath)
    } else if c == 'g' {
        Some(SimpleType::Signature)
    } else {
        None
    }
}

/// Every simple type is found again from its symbol.
pub proof fn lemma_simple_of_symbol(t: SimpleType)
    ensures
        simple_of(symbol(t)) == Some(t),
{
}


/// A node of a parsed signature: one complete type.
#[derive(Debug, PartialEq, Eq)]
pub enum DbusType {
    Simple(SimpleType),
    /// `( <...> )`
    Struct(Vec<DbusType>),
    /// `a`
    Array(Box<DbusType>),
    /// `v`
    Variant,
    /// `a{ <...> }`
    Dict(SimpleType, Box<DbusType>),
}

/// The mathematical value of a [`DbusType`]: the same tree, with sequences for
/// the members of a struct.
pub enum Ty {
    Simple(SimpleType),
    Struct(Seq<Ty>),
    Array(Box<Ty>),
    Variant,
    Dict(SimpleType, Box<Ty>),
}

impl DbusType {
    pub open spec fn view(self) -> Ty
        decreases self, 1int,
    {
        match self {
            DbusType::Simple(t) => Ty::Simple(t),
            DbusType::Struct(v) => Ty::Struct(views_from(v@, 0)),
            DbusType::Array(e) => Ty::Array(Box::new(e.view())),
            DbusType::Variant => Ty::Variant,
            DbusType::Dict(k, v) => Ty::Dict(k, Box::new(v.view())),
        }
    }
}

/// The values of `v[i..]`.
pub open spec fn views_from(v: Seq<DbusType>, i: int) -> Seq<Ty>
    decreases v, v.len() - i,
{
    if 0 <= i < v.len() {
        seq![v[i].view()] + views_from(v, i + 1)
    } else {
        Seq::empty()
    }
}

/// The values of a sequence of nodes.
pub open spec fn views(v: Seq<DbusType>) -> Seq<Ty> {
    views_from(v, 0)
}


/// The canonical text of a type.
pub open spec fn sig(t: Ty) -> Seq<char>
    decreases t, 1int,
{
    match t {
        Ty::Simple(k) => seq![symbol(k)],
        Ty::Struct(ms) => seq!['('] + sigs_from(ms, 0) + seq![')'],
        Ty::Array(e) => seq!['a'] + sig(*e),
        Ty::Variant => seq!['v'],
        Ty::Dict(k, v) => seq!['a', '{', symbol(k)] + sig(*v) + seq!['}'],
    }
}

/// The texts of `ms[i..]`, one after the other.
pub open spec fn sigs_from(ms: Seq<Ty>, i: int) -> Seq<char>
    decreases ms, ms.len() - i,
{
    if 0 <= i < ms.len() {
        sig(ms[i]) + sigs_from(ms, i + 1)
    } else {
        Seq::empty()
    }
}

/// The texts of a sequence of types, one after the other.
pub open spec fn sigs(ms: Seq<Ty>) -> Seq<char> {
    sigs_from(ms, 0)
}

/// The coarse wire category of a value, as the encoder dispatches on it.
#[derive(Debug, Clone, Copy, PartialEq, Eq, Structural)]
pub enum ArgType {
    Byte,
    Bool,
    Int16,
    UInt16,
    Int32,
    UInt32,
    Double,
    UnixFd,
    String,
    ObjectPath,
    Signature,
    Struct,
    Array,
    Variant,
}

/// The wire category of a simple type.
pub open spec fn simple_category(t: SimpleType) -> ArgType {
    match t {
        SimpleType::Byte => ArgType::Byte,
        SimpleType::Bool => ArgType::Bool,
        SimpleType::Int16 => ArgType::Int16,
        SimpleType::UInt16 => ArgType::UInt16,
        SimpleType::Int32 => ArgType::Int32,
        SimpleType::UInt32 => ArgType::UInt32,
        SimpleType::Double => ArgType::Double,
        SimpleType::UnixFd => ArgType::UnixFd,
        SimpleType::String => ArgType::String,
        SimpleType::ObjectPath => ArgType::ObjectPath,
        SimpleType::Signature => ArgType::Signature,
    }
}

/// The wire category of a type: a dict entry array is an array.
pub open spec fn category(t: Ty) -> ArgType {
    match t {
        Ty::Simple(k) => simple_category(k),
        Ty::Struct(_) => ArgType::Struct,
        Ty::Array(_) => ArgType::Array,
        Ty::Variant => ArgType::Variant,
        Ty::Dict(_, _) => ArgType::Array,
    }
}

/// Why a signature text is malformed. Positions are character offsets.
#[derive(Debug, Clone, Copy, PartialEq, Eq, Structural)]
pub enum SignatureError {
    /// The text is longer than the limit of a signature.
    TooLong,
    /// A terminator at this offset is followed by more text.
    AfterTerminator(usize),
    /// This character, at this offset, starts no type.
    ExpectedType(char, usize),
    /// This character, at this offset, is no simple type (the key of a dict entry).
    ExpectedSimpleType(char, usize),
    /// The struct opened at this offset is not closed.
    ParenNotClosed(usize),
    /// The array needs an element type at this offset.
    MissingArrayType(usize),
    /// The dict entry whose `{` stands at this offset has no key type.
    ExpectedKeyType(usize),
    /// The dict entry whose `{` stands at this offset has no value type.
    ExpectedValueType(usize),
    /// The dict entry whose `{` stands at this offset is not closed by `}`.
    DictNotClosed(usize),
}

/// The most characters a signature may have.
pub const MAX_SIGNATURE_LEN: usize = 255;

/// The terminator that may end a signature text.
pub const TERMINATOR: char = '\0';

/// Parses one type of `s` at `pos`: `None` at the end of the text, else the type
/// and the offset just after it.
pub open spec fn parse_node(s: Seq<char>, pos: int) -> Result<Option<(Ty, int)>, SignatureError>
    decreases s.len() - pos, 0int,
{
    if pos < 0 || pos >= s.len() {
        Ok(None)
    } else {
        let c = s[pos];
        if let Some(k) = simple_of(c) {
            Ok(Some((Ty::Simple(k), pos + 1)))
        } else if c == '(' {
            match parse_members(s, pos + 1, pos) {
                Ok((ms, q)) => Ok(Some((Ty::Struct(ms), q))),
                Err(e) => Err(e),
            }
        } else if c == 'a' && pos + 1 < s.len() && s[pos + 1] == '{' {
            let b = (pos + 1) as usize;
            if pos + 2 >= s.len() {
                Err(SignatureError::ExpectedKeyType(b))
            } else if let Some(k) = simple_of(s[pos + 2]) {
                match parse_node(s, pos + 3) {
                    Ok(Some((v, q))) => if 0 <= q < s.len() && s[q] == '}' {
                        Ok(Some((Ty::Dict(k, Box::new(v)), q + 1)))
                    } else {
                        Err(SignatureError::DictNotClosed(b))
                    },
                    Ok(None) => Err(SignatureError::ExpectedValueType(b)),
                    Err(e) => Err(e),
                }
            } else {
                Err(SignatureError::ExpectedSimpleType(s[pos + 2], (pos + 2) as usize))
            }
        } else if c == 'a' {
            match parse_node(s, pos + 1) {
                Ok(Some((e, q))) => Ok(Some((Ty::Array(Box::new(e)), q))),
                Ok(None) => Err(SignatureError::MissingArrayType((pos + 1) as usize)),
                Err(e) => Err(e),
            }
        } else if c == 'v' {
            Ok(Some((Ty::Variant, pos + 1)))
        } else {
            Err(SignatureError::ExpectedType(c, pos as usize))
        }
    }
}

/// Parses the members of the struct opened at `open`, from `pos` through its
/// closing `)`: the members and the offset just after the `)`.
pub open spec fn parse_members(s: Seq<char>, pos: int, open: int) -> Result<(Seq<Ty>, int), SignatureError>
    decreases s.len() - pos, 1int,
{
    if pos < 0 || pos >= s.len() {
        Err(SignatureError::ParenNotClosed(open as usize))
    } else if s[pos] == ')' {
        Ok((Seq::empty(), pos + 1))
    } else {
        match parse_node(s, pos) {
            Ok(Some((t, q))) => if pos < q <= s.len() {
                match parse_members(s, q, open) {
                    Ok((ms, r)) => Ok((seq![t] + ms, r)),
                    Err(e) => Err(e),
                }
            } else {
                Err(SignatureError::ParenNotClosed(open as usize))
            },
            Ok(None) => Err(SignatureError::ParenNotClosed(open as usize)),
            Err(e) => Err(e),
        }
    }
}

/// Parses the top-level types of `s` from `pos` to its end or its terminator.
pub open spec fn parse_types(s: Seq<char>, pos: int) -> Result<Seq<Ty>, SignatureError>
    decreases s.len() - pos,
{
    if pos < 0 || pos >= s.len() {
        Ok(Seq::empty())
    } else if s[pos] == TERMINATOR {
        if pos + 1 < s.len() {
            Err(SignatureError::AfterTerminator(pos as usize))
        } else {
            Ok(Seq::empty())
        }
    } else {
        match parse_node(s, pos) {
            Ok(Some((t, q))) => if pos < q <= s.len() {
                match parse_types(s, q) {
                    Ok(ts) => Ok(seq![t] + ts),
                    Err(e) => Err(e),
                }
            } else {
                Ok(Seq::empty())
            },
            Ok(None) => Ok(Seq::empty()),
            Err(e) => Err(e),
        }
    }
}

/// What parsing the signature text `s` gives.
pub open spec fn parse_signature(s: Seq<char>) -> Result<Seq<Ty>, SignatureError> {
    if s.len() > MAX_SIGNATURE_LEN {
        Err(SignatureError::TooLong)
    } else {
        parse_types(s, 0)
    }
}

/// A parsed type ends after its start and within the text.
pub proof fn lemma_parse_node_advances(s: Seq<char>, pos: int)
    ensures
        parse_node(s, pos) matches Ok(Some((_, q))) ==> pos < q <= s.len(),
    decreases s.len() - pos, 0int,
{
    if 0 <= pos < s.len() {
        let c = s[pos];
        if simple_of(c).is_none() {
            if c == '(' {
                lemma_parse_members_advances(s, pos + 1, pos);
            } else if c == 'a' && pos + 1 < s.len() && s[pos + 1] == '{' {
                if pos + 2 < s.len() {
                    lemma_parse_node_advances(s, pos + 3);
                }
            } else if c == 'a' {
                lemma_parse_node_advances(s, pos + 1);
            }
        }
    }
}

/// Parsed members end after their start and within the text.
pub proof fn lemma_parse_members_advances(s: Seq<char>, pos: int, open: int)
    ensures
        parse_members(s, pos, open) matches Ok((_, q)) ==> pos < q <= s.len(),
    decreases s.len() - pos, 1int,
{
    if 0 <= pos < s.len() && s[pos] != ')' {
        lemma_parse_node_advances(s, pos);
        if let Ok(Some((t, q))) = parse_node(s, pos) {
            if pos < q {
                lemma_parse_members_advances(s, q, open);
            }
        }
    }
}


/// The values of `v[i..]` are those of the nodes, one by one.
pub proof fn lemma_views_from(v: Seq<DbusType>, i: int)
    requires
        0 <= i <= v.len(),
    ensures
        views_from(v, i).len() == v.len() - i,
        forall|j: int| 0 <= j < v.len() - i ==> #[trigger] views_from(v, i)[j] == v[i + j]@,
    decreases v.len() - i,
{
    if i < v.len() {
        lemma_views_from(v, i + 1);
        assert forall|j: int| 0 <= j < v.len() - i implies #[trigger] views_from(v, i)[j] == v[i + j]@ by {
            if j > 0 {
                assert(views_from(v, i)[j] == views_from(v, i + 1)[j - 1]);
            }
        }
    }
}

/// The value of a sequence of nodes is their values, one by one.
pub proof fn lemma_views(v: Seq<DbusType>)
    ensures
        views(v).len() == v.len(),
        forall|j: int| 0 <= j < v.len() ==> #[trigger] views(v)[j] == v[j]@,
{
    lemma_views_from(v, 0);
    assert forall|j: int| 0 <= j < v.len() implies #[trigger] views(v)[j] == v[j]@ by {
        assert(views_from(v, 0)[j] == v[0 + j]@);
    }
}

/// `parse_node` over the values of executable nodes.
pub open spec fn node_result_view(r: Result<Option<(DbusType, usize)>, SignatureError>) -> Result<
    Option<(Ty, int)>,
    SignatureError,
> {
    match r {
        Ok(Some((t, q))) => Ok(Some((t@, q as int))),
        Ok(None) => Ok(None),
        Err(e) => Err(e),
    }
}

/// `parse_members` over the values of executable nodes.
pub open spec fn members_result_view(r: Result<(Vec<DbusType>, usize), SignatureError>) -> Result<
    (Seq<Ty>, int),
    SignatureError,
> {
    match r {
        Ok((v, q)) => Ok((views(v@), q as int)),
        Err(e) => Err(e),
    }
}

/// `r` with the types `ts` put before what it holds.
pub open spec fn prepend_types(ts: Seq<Ty>, r: Result<Seq<Ty>, SignatureError>) -> Result<
    Seq<Ty>,
    SignatureError,
> {
    match r {
        Ok(xs) => Ok(ts + xs),
        Err(e) => Err(e),
    }
}

impl SimpleType {
    /// The simple type whose symbol is `c`; `idx` is where `c` stands, for the error.
    pub fn from_char(c: char, idx: usize) -> (r: Result<SimpleType, SignatureError>)
        ensures
            r == (match simple_of(c) {
                Some(t) => Ok(t),
                None => Err(SignatureError::ExpectedSimpleType(c, idx)),
            }),
    {
        match c {
            'y' => Ok(SimpleType::Byte),
            'b' => Ok(SimpleType::Bool),
            'n' => Ok(SimpleType::Int16),
            'q' => Ok(SimpleType::UInt16),
            'i' => Ok(SimpleType::Int32),
            'u' => Ok(SimpleType::UInt32),
            'd' => Ok(SimpleType::Double),
            'h' => Ok(SimpleType::UnixFd),
            's' => Ok(SimpleType::String),
            'o' => Ok(SimpleType::ObjectPath),
            'g' => Ok(SimpleType::Signature),
            o => Err(SignatureError::ExpectedSimpleType(o, idx)),
        }
    }

    /// The symbol of this type, as text.
    pub fn symbol(&self) -> (r: &'static str)
        ensures
            r@ == seq![symbol(*self)],
    {
        let r = match self {
            SimpleType::Byte => "y",
            SimpleType::Bool => "b",
            SimpleType::Int16 => "n",
            SimpleType::UInt16 => "q",
            SimpleType::Int32 => "i",
            SimpleType::UInt32 => "u",
            SimpleType::Double => "d",
            SimpleType::UnixFd => "h",
            SimpleType::String => "s",
            SimpleType::ObjectPath => "o",
            SimpleType::Signature => "g",
        };
        proof {
            reveal_strlit("y");
            reveal_strlit("b");
            reveal_strlit("n");
            reveal_strlit("q");
            reveal_strlit("i");
            reveal_strlit("u");
            reveal_strlit("d");
            reveal_strlit("h");
            reveal_strlit("s");
            reveal_strlit("o");
            reveal_strlit("g");
        }
        assert(r@ =~= seq![symbol(*self)]);
        r
    }

    /// The wire category of this type.
    pub fn arg_type(&self) -> (r: ArgType)
        ensures
            r == simple_category(*self),
    {
        match self {
            SimpleType::Byte => ArgType::Byte,
            SimpleType::Bool => ArgType::Bool,
            SimpleType::Int16 => ArgType::Int16,
            SimpleType::UInt16 => ArgType::UInt16,
            SimpleType::Int32 => ArgType::Int32,
            SimpleType::UInt32 => ArgType::UInt32,
            SimpleType::Double => ArgType::Double,
            SimpleType::UnixFd => ArgType::UnixFd,
            SimpleType::String => ArgType::String,
            SimpleType::ObjectPath => ArgType::ObjectPath,
            SimpleType::Signature => ArgType::Signature,
        }
    }
}

impl DbusType {
    /// The wire category of this type.
    pub fn arg_type(&self) -> (r: ArgType)
        ensures
            r == category(self@),
    {
        match self {
            DbusType::Simple(s) => s.arg_type(),
            DbusType::Struct(_) => ArgType::Struct,
            DbusType::Array(_) | DbusType::Dict(_, _) => ArgType::Array,
            DbusType::Variant => ArgType::Variant,
        }
    }

    /// Parses one type of `s` at `pos` (see `parse_node`).
    fn parse(s: &Vec<char>, pos: usize) -> (r: Result<Option<(DbusType, usize)>, SignatureError>)
        requires
            s.len() < usize::MAX,
        ensures
            node_result_view(r) == parse_node(s@, pos as int),
        decreases s@.len() - pos, 0int,
    {
        if pos >= s.len() {
            return Ok(None);
        }
        let c = s[pos];
        if let Ok(k) = SimpleType::from_char(c, pos) {
            return Ok(Some((DbusType::Simple(k), pos + 1)));
        }
        if c == '(' {
            match Self::parse_members(s, pos + 1, pos) {
                Ok((ms, q)) => Ok(Some((DbusType::Struct(ms), q))),
                Err(e) => Err(e),
            }
        } else if c == 'a' && pos + 1 < s.len() && s[pos + 1] == '{' {
            let b = pos + 1;
            if pos + 2 >= s.len() {
                return Err(SignatureError::ExpectedKeyType(b));
            }
            let k = match SimpleType::from_char(s[pos + 2], pos + 2) {
                Ok(k) => k,
                Err(e) => return Err(e),
            };
            match Self::parse(s, pos + 3) {
                Ok(Some((v, q))) => {
                    if q < s.len() && s[q] == '}' {
                        Ok(Some((DbusType::Dict(k, Box::new(v)), q + 1)))
                    } else {
                        Err(SignatureError::DictNotClosed(b))
                    }
                },
                Ok(None) => Err(SignatureError::ExpectedValueType(b)),
                Err(e) => Err(e),
            }
        } else if c == 'a' {
            match Self::parse(s, pos + 1) {
                Ok(Some((e, q))) => Ok(Some((DbusType::Array(Box::new(e)), q))),
                Ok(None) => Err(SignatureError::MissingArrayType(pos + 1)),
                Err(e) => Err(e),
            }
        } else if c == 'v' {
            Ok(Some((DbusType::Variant, pos + 1)))
        } else {
            Err(SignatureError::ExpectedType(c, pos))
        }
    }

    /// Parses the members of the struct opened at `open`, from `pos` through
    /// its `)` (see `parse_members`).
    fn parse_members(s: &Vec<char>, pos: usize, open: usize) -> (r: Result<(Vec<DbusType>, usize), SignatureError>)
        requires
            s.len() < usize::MAX,
        ensures
            members_result_view(r) == parse_members(s@, pos as int, open as int),
        decreases s@.len() - pos, 1int,
    {
        if pos >= s.len() {
            return Err(SignatureError::ParenNotClosed(open));
        }
        if s[pos] == ')' {
            let ms: Vec<DbusType> = Vec::new();
            proof {
                lemma_views(ms@);
                assert(views(ms@) =~= Seq::empty());
            }
            return Ok((ms, pos + 1));
        }
        proof {
            lemma_parse_node_advances(s@, pos as int);
        }
        match Self::parse(s, pos) {
            Ok(Some((t, q))) => {
                match Self::parse_members(s, q, open) {
                    Ok((ms, r)) => {
                        let ghost old_ms = ms@;
                        let ghost tv = t@;
                        let mut ms = ms;
                        ms.insert(0, t);
                        proof {
                            lemma_views(old_ms);
                            lemma_views(ms@);
                            assert(views(ms@) =~= seq![tv] + views(old_ms));
                        }
                        Ok((ms, r))
                    },
                    Err(e) => Err(e),
                }
            },
            Ok(None) => Err(SignatureError::ParenNotClosed(open)),
            Err(e) => Err(e),
        }
    }
}


impl DbusType {
    /// The canonical signature text of this type.
    pub fn to_signature(&self) -> (r: String)
        ensures
            r@ == sig(self@),
    {
        let mut out = String::new();
        self.write_signature(&mut out);
        out
    }

    /// Appends the canonical signature text of this type to `out`.
    fn write_signature(&self, out: &mut String)
        ensures
            final(out)@ == old(out)@ + sig(self@),
        decreases self@,
    {
        proof {
            reveal_strlit("(");
            reveal_strlit(")");
            reveal_strlit("a");
            reveal_strlit("{");
            reveal_strlit("}");
            reveal_strlit("v");
        }
        match self {
            DbusType::Simple(k) => {
                out.append(k.symbol());
            },
            DbusType::Struct(ms) => {
                let ghost start = out@;
                let ghost vs = views(ms@);
                proof {
                    lemma_views(ms@);
                }
                out.append("(");
                let mut i: usize = 0;
                while i < ms.len()
                    invariant
                        i <= ms.len(),
                        vs == views(ms@),
                        *self == DbusType::Struct(*ms),
                        vs.len() == ms.len(),
                        forall|j: int| 0 <= j < ms.len() ==> #[trigger] vs[j] == ms[j]@,
                        out@ + sigs_from(vs, i as int) == start + seq!['('] + sigs_from(vs, 0),
                    decreases ms.len() - i,
                {
                    let ghost before = out@;
                    proof {
                        assert(self@ == Ty::Struct(vs));
                        assert(decreases_to!(self@ => self@->Struct_0));
                        assert(decreases_to!(vs => vs[i as int]));
                    }
                    ms[i].write_signature(out);
                    proof {
                        assert(sigs_from(vs, i as int) == sig(vs[i as int]) + sigs_from(vs, i + 1));
                        assert(out@ + sigs_from(vs, i + 1) =~= before + sigs_from(vs, i as int));
                    }
                    i = i + 1;
                }
                out.append(")");
                assert(out@ =~= start + sig(self@));
            },
            DbusType::Array(e) => {
                out.append("a");
                e.write_signature(out);
                assert(out@ =~= old(out)@ + sig(self@));
            },
            DbusType::Variant => {
                out.append("v");
            },
            DbusType::Dict(k, v) => {
                out.append("a{");
                out.append(k.symbol());
                v.write_signature(out);
                out.append("}");
                proof {
                    reveal_strlit("a{");
                }
                assert(out@ =~= old(out)@ + sig(self@));
            },
        }
    }
}

/// A signature text with the types it decodes to.
#[derive(Debug)]
pub struct Signature {
    /// The text, as given.
    pub src: String,
    /// Its top-level types, in order.
    pub parsed: Vec<DbusType>,
}

impl Signature {
    /// Parses a signature text: its top-level types, up to its end or to a
    /// terminator that ends it.
    pub fn parse(text: &str) -> (r: Result<Signature, SignatureError>)
        ensures
            signature_result_view(r) == parse_signature(text@),
            r matches Ok(sig) ==> sig.src@ == text@,
            r matches Ok(sig) ==> text@ == sigs(views(sig.parsed@)) || text@ == sigs(views(sig.parsed@)).push(
                TERMINATOR,
            ),
    {
        let n = text.unicode_len();
        if n > MAX_SIGNATURE_LEN {
            return Err(SignatureError::TooLong);
        }
        let mut chars: Vec<char> = Vec::new();
        let mut i: usize = 0;
        while i < n
            invariant
                i <= n,
                n == text@.len(),
                chars@ == text@.subrange(0, i as int),
            decreases n - i,
        {
            chars.push(text.get_char(i));
            i = i + 1;
            assert(chars@ =~= text@.subrange(0, i as int));
        }
        assert(chars@ =~= text@);
        let mut parsed: Vec<DbusType> = Vec::new();
        let mut pos: usize = 0;
        proof {
            lemma_views(parsed@);
            assert(views(parsed@) =~= Seq::empty());
            assert(prepend_types(Seq::empty(), parse_types(chars@, 0)) =~= parse_types(chars@, 0));
        }
        loop
            invariant
                pos <= chars.len(),
                chars.len() <= MAX_SIGNATURE_LEN,
                chars@ == text@,
                parse_signature(text@) == prepend_types(views(parsed@), parse_types(chars@, pos as int)),
            decreases chars.len() - pos,
        {
            if pos >= chars.len() || (chars[pos] == TERMINATOR && pos + 1 == chars.len()) {
                assert(views(parsed@) + Seq::empty() =~= views(parsed@));
                proof {
                    lemma_parse_sound(text@);
                }
                return Ok(Signature { src: text.to_owned(), parsed });
            }
            if chars[pos] == TERMINATOR {
                return Err(SignatureError::AfterTerminator(pos));
            }
            proof {
                lemma_parse_node_advances(chars@, pos as int);
            }
            match DbusType::parse(&chars, pos) {
                Ok(Some((t, q))) => {
                    let ghost before = parsed@;
                    let ghost tv = t@;
                    parsed.push(t);
                    proof {
                        lemma_views(before);
                        lemma_views(parsed@);
                        assert(views(parsed@) =~= views(before) + seq![tv]);
                        if let Ok(xs) = parse_types(chars@, q as int) {
                            assert(views(before) + (seq![tv] + xs) =~= views(parsed@) + xs);
                        }
                    }
                    pos = q;
                },
                Ok(None) => {
                    assert(views(parsed@) + Seq::empty() =~= views(parsed@));
                    return Ok(Signature { src: text.to_owned(), parsed });
                },
                Err(e) => {
                    return Err(e);
                },
            }
        }
    }

    /// The text as a D-Bus library takes it: ending in a terminator, which is
    /// added when the text has none at its end.
    pub fn expand_to_signature(&self) -> (r: String)
        ensures
            r@ == terminated(self.src@),
    {
        let mut out = self.src.clone();
        let n = out.as_str().unicode_len();
        if n == 0 || out.as_str().get_char(n - 1) != TERMINATOR {
            out.append("\0");
            proof {
                reveal_strlit("\0");
            }
            assert(out@ =~= self.src@.push(TERMINATOR));
        }
        out
    }
}

/// `parse_signature` over the values of executable nodes.
pub open spec fn signature_result_view(r: Result<Signature, SignatureError>) -> Result<Seq<Ty>, SignatureError> {
    match r {
        Ok(sig) => Ok(views(sig.parsed@)),
        Err(e) => Err(e),
    }
}

/// `s`, with a terminator added unless it ends in one.
pub open spec fn terminated(s: Seq<char>) -> Seq<char> {
    if s.len() > 0 && s.last() == TERMINATOR {
        s
    } else {
        s.push(TERMINATOR)
    }
}

} // verus!
