use vstd::prelude::*;
use vstd::string::StrSliceExecFns;

verus! {

// --- names the portal generates -------------------------------------------------------

/// Whether std's `char::is_uppercase` holds of `c` (the Unicode `Uppercase` property).
pub uninterp spec fn is_uppercase_char(c: char) -> bool;

/// `c` with an ASCII capital letter made small; other characters unchanged.
pub open spec fn ascii_lower(c: char) -> char {
    if 'A' <= c <= 'Z' {
        ((c as u32) + 32) as char
    } else {
        c
    }
}

/// `c` with an ASCII small letter made capital; other characters unchanged.
pub open spec fn ascii_upper(c: char) -> char {
    if 'a' <= c <= 'z' {
        ((c as u32) - 32) as char
    } else {
        c
    }
}

/// std's `char::is_uppercase`: whether the character has the Unicode `Uppercase`
/// property. Its result is named, not stated.
#[verifier::external_body]
fn char_is_uppercase(c: char) -> (r: bool)
    ensures
        r == is_uppercase_char(c),
{
    c.is_uppercase()
}

/// `c` with an ASCII capital letter made small, as std's `char::to_ascii_lowercase` does.
fn char_to_ascii_lowercase(c: char) -> (r: char)
    ensures
        r == ascii_lower(c),
{
    if 'A' <= c && c <= 'Z' {
        let b = c as u8;
        ((b + 32) as char)
    } else {
        c
    }
}

/// `c` with an ASCII small letter made capital, as std's `char::to_ascii_uppercase` does.
fn char_to_ascii_uppercase(c: char) -> (r: char)
    ensures
        r == ascii_upper(c),
{
    if 'a' <= c && c <= 'z' {
        let b = c as u8;
        ((b - 32) as char)
    } else {
        c
    }
}

/// The module name of a portal: each uppercase character becomes its small ASCII form,
/// after an underscore unless it opens the name.
pub open spec fn module_name(s: Seq<char>) -> Seq<char>
    decreases s.len(),
{
    if s.len() == 0 {
        seq![]
    } else {
        let c = s.last();
        module_name(s.drop_last()) + if is_uppercase_char(c) {
            if s.len() > 1 {
                seq!['_', ascii_lower(c)]
            } else {
                seq![ascii_lower(c)]
            }
        } else {
            seq![c]
        }
    }
}

/// The words of an endpoint's function name made one capitalised word: underscores are
/// dropped, the character after one (and the first) made capital, the others small.
pub open spec fn camel_words(s: Seq<char>) -> Seq<char>
    decreases s.len(),
{
    if s.len() == 0 {
        seq![]
    } else {
        let c = s.last();
        camel_words(s.drop_last()) + if c == '_' {
            seq![]
        } else if s.len() == 1 || s[s.len() - 2] == '_' {
            seq![ascii_upper(c)]
        } else {
            seq![ascii_lower(c)]
        }
    }
}

/// The enum name of an endpoint: its name in capitalised words, then `Portal`.
pub open spec fn enum_name(s: Seq<char>) -> Seq<char> {
    camel_words(s) + seq!['P', 'o', 'r', 't', 'a', 'l']
}

/// The name of the module a portal named `name` is generated in.
pub fn to_module_name(name: &str) -> (r: Vec<char>)
    ensures
        r@ == module_name(name@),
{
    let n = name.unicode_len();
    let mut out: Vec<char> = Vec::new();
    let mut i: usize = 0;
    while i < n
        invariant
            n == name@.len(),
            i <= n,
            out@ == module_name(name@.subrange(0, i as int)),
        decreases n - i,
    {
        let c = name.get_char(i);
        let ghost pre = name@.subrange(0, i as int);
        proof {
            assert(name@.subrange(0, i + 1).drop_last() =~= pre);
        }
        if char_is_uppercase(c) {
            if i > 0 {
                out.push('_');
            }
            out.push(char_to_ascii_lowercase(c));
        } else {
            out.push(c);
        }
        proof {
            let next = name@.subrange(0, i + 1);
            assert(next.last() == c);
            if is_uppercase_char(c) && i > 0 {
                assert(out@ =~= module_name(pre) + seq!['_', ascii_lower(c)]);
            } else if is_uppercase_char(c) {
                assert(out@ =~= module_name(pre) + seq![ascii_lower(c)]);
            } else {
                assert(out@ =~= module_name(pre) + seq![c]);
            }
        }
        i = i + 1;
    }
    proof {
        assert(name@.subrange(0, n as int) =~= name@);
    }
    out
}

/// The name of the enum generated for an endpoint named `name`.
pub fn to_enum_name(name: &str) -> (r: Vec<char>)
    ensures
        r@ == enum_name(name@),
{
    let n = name.unicode_len();
    let mut out: Vec<char> = Vec::new();
    let mut next_char_should_be_upper = true;
    let mut i: usize = 0;
    while i < n
        invariant
            n == name@.len(),
            i <= n,
            out@ == camel_words(name@.subrange(0, i as int)),
            next_char_should_be_upper == (i == 0 || name@[i - 1] == '_'),
        decreases n - i,
    {
        let c = name.get_char(i);
        let ghost pre = name@.subrange(0, i as int);
        proof {
            assert(name@.subrange(0, i + 1).drop_last() =~= pre);
            let next = name@.subrange(0, i + 1);
            assert(next.last() == c);
            if i > 0 {
                assert(next[i - 1] == name@[i - 1]);
            }
        }
        if c == '_' {
            next_char_should_be_upper = true;
            assert(out@ =~= camel_words(name@.subrange(0, i + 1)));
        } else {
            if next_char_should_be_upper {
                next_char_should_be_upper = false;
                out.push(char_to_ascii_uppercase(c));
            } else {
                out.push(char_to_ascii_lowercase(c));
            }
            assert(out@ =~= camel_words(name@.subrange(0, i + 1)));
        }
        i = i + 1;
    }
    proof {
        assert(name@.subrange(0, n as int) =~= name@);
    }
    let ghost body = out@;
    out.push('P');
    out.push('o');
    out.push('r');
    out.push('t');
    out.push('a');
    out.push('l');
    assert(out@ =~= body + seq!['P', 'o', 'r', 't', 'a', 'l']);
    out
}

/// The name of the constant holding an endpoint's id: the endpoint's name in capitals
/// (ASCII), `_ID_`, then `extra`.
pub open spec fn const_name(name: Seq<char>, extra: Seq<char>) -> Seq<char> {
    name.map_values(|c: char| ascii_upper(c)) + seq!['_', 'I', 'D', '_'] + extra
}

/// The name of the constant generated for an endpoint named `name`.
pub fn to_const_name(name: &str, extra: &str) -> (r: Vec<char>)
    ensures
        r@ == const_name(name@, extra@),
{
    let n = name.unicode_len();
    let mut out: Vec<char> = Vec::new();
    let mut i: usize = 0;
    while i < n
        invariant
            n == name@.len(),
            i <= n,
            out@ == name@.subrange(0, i as int).map_values(|c: char| ascii_upper(c)),
        decreases n - i,
    {
        out.push(char_to_ascii_uppercase(name.get_char(i)));
        assert(out@ =~= name@.subrange(0, i + 1).map_values(|c: char| ascii_upper(c)));
        i = i + 1;
    }
    assert(name@.subrange(0, n as int) =~= name@);
    let ghost upper = out@;
    out.push('_');
    out.push('I');
    out.push('D');
    out.push('_');
    let m = extra.unicode_len();
    let mut j: usize = 0;
    while j < m
        invariant
            m == extra@.len(),
            j <= m,
            out@ == upper + seq!['_', 'I', 'D', '_'] + extra@.subrange(0, j as int),
        decreases m - j,
    {
        out.push(extra.get_char(j));
        assert(out@ =~= upper + seq!['_', 'I', 'D', '_'] + extra@.subrange(0, j + 1));
        j = j + 1;
    }
    assert(extra@.subrange(0, m as int) =~= extra@);
    out
}

// --- checks on a portal's endpoints ---------------------------------------------------

/// The kinds of endpoint a portal declares.
#[derive(Clone, Copy, Debug, PartialEq, Eq, Structural)]
pub enum ProtocolEndpointKind {
    Event,
}

/// An endpoint of a portal, by what the checks read: its id and its kind.
#[derive(Clone, Copy, Debug, PartialEq, Eq, Structural)]
pub struct ProtocolEndpoint {
    pub portal_id: usize,
    pub kind: ProtocolEndpointKind,
}

/// A portal, by its endpoints in the order they were written.
pub struct PortalMacro {
    pub endpoints: Vec<ProtocolEndpoint>,
}

/// The first endpoint from `j` on with the id of endpoint `i`.
pub open spec fn first_same_after(ids: Seq<usize>, i: int, j: int) -> Option<int>
    decreases ids.len() - j,
{
    if j < 0 || j >= ids.len() {
        None
    } else if ids[j] == ids[i] {
        Some(j)
    } else {
        first_same_after(ids, i, j + 1)
    }
}

/// For each of the first `n` endpoints that a later endpoint shares its id with: the id,
/// the endpoint's position and that of the first later one with the id.
pub open spec fn repeated_ids(ids: Seq<usize>, n: int) -> Seq<(usize, usize, usize)>
    decreases n,
{
    if n <= 0 {
        seq![]
    } else {
        repeated_ids(ids, n - 1) + match first_same_after(ids, n - 1, n) {
            Some(j) => seq![(ids[n - 1], (n - 1) as usize, j as usize)],
            None => seq![],
        }
    }
}

impl PortalMacro {
    /// The ids of the endpoints, in order.
    pub open spec fn ids(&self) -> Seq<usize> {
        self.endpoints@.map_values(|e: ProtocolEndpoint| e.portal_id)
    }

    /// The first endpoint after endpoint `i` with its id.
    fn first_same(&self, i: usize) -> (r: Option<usize>)
        requires
            i < self.ids().len(),
        ensures
            match first_same_after(self.ids(), i as int, i + 1) {
                Some(j) => r == Some(j as usize),
                None => r is None,
            },
    {
        let ghost ids = self.ids();
        let n = self.endpoints.len();
        let our_id = self.endpoints[i].portal_id;
        let mut j: usize = i + 1;
        while j < n
            invariant
                n == ids.len(),
                ids == self.ids(),
                i < n,
                i + 1 <= j <= n,
                our_id == ids[i as int],
                first_same_after(ids, i as int, i + 1) == first_same_after(ids, i as int, j as int),
            decreases n - j,
        {
            if self.endpoints[j].portal_id == our_id {
                assert(ids[j as int] == our_id);
                return Some(j);
            }
            j = j + 1;
        }
        None
    }

    /// Get all the not unique portal ids: for each endpoint whose id a later endpoint
    /// repeats, the id, the endpoint's position and the position of the first repeat.
    pub fn all_non_unique_portal_ids(&self) -> (r: Vec<(usize, usize, usize)>)
        ensures
            r@ == repeated_ids(self.ids(), self.ids().len() as int),
    {
        let ghost ids = self.ids();
        let n = self.endpoints.len();
        let mut out: Vec<(usize, usize, usize)> = Vec::new();
        let mut i: usize = 0;
        while i < n
            invariant
                n == ids.len(),
                ids == self.ids(),
                i <= n,
                out@ == repeated_ids(ids, i as int),
            decreases n - i,
        {
            let our_id = self.endpoints[i].portal_id;
            let found = self.first_same(i);
            match found {
                Some(k) => {
                    out.push((our_id, i, k));
                },
                None => {},
            }
            i = i + 1;
        }
        out
    }

    /// Get the highest protocol endpoint ID (0 for a portal without endpoints).
    pub fn highest_id(&self) -> (r: usize)
        ensures
            forall|k: int| 0 <= k < self.ids().len() ==> self.ids()[k] <= r,
            self.ids().len() == 0 ==> r == 0,
            self.ids().len() > 0 ==> exists|k: int| 0 <= k < self.ids().len() && self.ids()[k] == r,
    {
        let ghost ids = self.ids();
        let mut best: usize = 0;
        let mut i: usize = 0;
        while i < self.endpoints.len()
            invariant
                ids == self.ids(),
                i <= ids.len(),
                forall|k: int| 0 <= k < i ==> ids[k] <= best,
                i == 0 ==> best == 0,
                i > 0 ==> exists|k: int| 0 <= k < i && ids[k] == best,
            decreases ids.len() - i,
        {
            let id = self.endpoints[i].portal_id;
            assert(ids[i as int] == id);
            if i == 0 || id > best {
                best = id;
            }
            i = i + 1;
        }
        best
    }
}

// --- the types an endpoint carries ----------------------------------------------------

/// A type an endpoint sends or receives.
#[derive(Debug)]
pub enum ProtocolVarType {
    ResultKind { ok_ty: Box<ProtocolVarType>, err_ty: Box<ProtocolVarType> },
    Never,
    Unit,
    Signed8,
    Signed16,
    Signed32,
    Signed64,
    Unsigned8,
    Unsigned16,
    Unsigned32,
    Unsigned64,
    UnsignedSize,
    Unknown(String),
    UserDefined(String),
    Str,
    RefTo { is_mut: bool, to: Box<ProtocolVarType> },
    PtrTo { is_mut: bool, to: Box<ProtocolVarType> },
}

/// The type holds a reference somewhere in it (not looking into the user's own types).
pub open spec fn holds_reference(t: ProtocolVarType) -> bool
    decreases t,
{
    match t {
        ProtocolVarType::RefTo { .. } => true,
        ProtocolVarType::ResultKind { ok_ty, err_ty } => holds_reference(*ok_ty) || holds_reference(
            *err_ty,
        ),
        ProtocolVarType::PtrTo { to, .. } => holds_reference(*to),
        _ => false,
    }
}

impl ProtocolVarType {
    /// Whether the type holds a reference somewhere in it.
    pub fn has_reference(&self) -> (r: bool)
        ensures
            r == holds_reference(*self),
        decreases self,
    {
        match self {
            ProtocolVarType::RefTo { .. } => true,
            ProtocolVarType::ResultKind { ok_ty, err_ty } => ok_ty.has_reference()
                || err_ty.has_reference(),
            ProtocolVarType::PtrTo { to, .. } => to.has_reference(),
            _ => false,
        }
    }
}

/// A generic argument of a type as written: a type, or anything else.
pub enum GenericArgShape {
    Type(TypeShape),
    Other,
}

/// The arguments of the last segment of a type's path.
pub enum PathArgsShape {
    Plain,
    AngleBracketed(Vec<GenericArgShape>),
    Parenthesized,
}

/// The shape of a type written in an endpoint's signature, as far as the portal reads it.
pub enum TypeShape {
    Never,
    /// A path type: the name and arguments of its last segment, if it has one.
    Path { last: Option<(String, PathArgsShape)> },
    Ptr { is_mut: bool, elem: Box<TypeShape> },
    Reference { is_mut: bool, elem: Box<TypeShape> },
    Tuple { elems: usize },
    Other,
}

/// Why a written type cannot be carried by a portal.
#[derive(Clone, Copy, Debug, PartialEq, Eq, Structural)]
pub enum TypeError {
    NotSupported,
    OnlyTwoGenericArguments,
    InvalidSyntax,
}

/// The type a portal carries for a path type named `name`: the integer types and `str`
/// by name, `Result` from its two type arguments, any other name the user's own.
pub open spec fn path_var_type_spec(name: String, args: PathArgsShape) -> Result<ProtocolVarType, TypeError>
    decreases args, 1int,
{
    if name@ == "Result"@ {
        match args {
            PathArgsShape::AngleBracketed(v) => if v@.len() == 2 && v@[0] is Type && v@[1] is Type {
                proof {
                    assert(decreases_to!(v => v@));
                    assert(decreases_to!(v@ => v@[0]));
                    assert(decreases_to!(v@ => v@[1]));
                }
                match var_type_of(v@[0]->Type_0) {
                    Err(e) => Err(e),
                    Ok(ok_ty) => match var_type_of(v@[1]->Type_0) {
                        Err(e) => Err(e),
                        Ok(err_ty) => Ok(
                            ProtocolVarType::ResultKind { ok_ty: Box::new(ok_ty), err_ty: Box::new(err_ty) },
                        ),
                    },
                }
            } else {
                Err(TypeError::OnlyTwoGenericArguments)
            },
            _ => Err(TypeError::InvalidSyntax),
        }
    } else if name@ == "i8"@ {
        Ok(ProtocolVarType::Signed8)
    } else if name@ == "i16"@ {
        Ok(ProtocolVarType::Signed16)
    } else if name@ == "i32"@ {
        Ok(ProtocolVarType::Signed32)
    } else if name@ == "i64"@ {
        Ok(ProtocolVarType::Signed64)
    } else if name@ == "u8"@ {
        Ok(ProtocolVarType::Unsigned8)
    } else if name@ == "u16"@ {
        Ok(ProtocolVarType::Unsigned16)
    } else if name@ == "u32"@ {
        Ok(ProtocolVarType::Unsigned32)
    } else if name@ == "u64"@ {
        Ok(ProtocolVarType::Unsigned64)
    } else if name@ == "str"@ {
        Ok(ProtocolVarType::Str)
    } else {
        Ok(ProtocolVarType::UserDefined(name))
    }
}

/// The type a portal carries for a written type, or why it cannot carry it.
pub open spec fn var_type_of(t: TypeShape) -> Result<ProtocolVarType, TypeError>
    decreases t, 2int,
{
    match t {
        TypeShape::Never => Ok(ProtocolVarType::Never),
        TypeShape::Path { last } => match last {
            None => Err(TypeError::NotSupported),
            Some(seg) => path_var_type_spec(seg.0, seg.1),
        },
        TypeShape::Ptr { is_mut, elem } => match var_type_of(*elem) {
            Ok(to) => Ok(ProtocolVarType::PtrTo { is_mut, to: Box::new(to) }),
            Err(e) => Err(e),
        },
        TypeShape::Reference { is_mut, elem } => match var_type_of(*elem) {
            Ok(to) => Ok(ProtocolVarType::RefTo { is_mut, to: Box::new(to) }),
            Err(e) => Err(e),
        },
        TypeShape::Tuple { elems } => if elems == 0 {
            Ok(ProtocolVarType::Unit)
        } else {
            Err(TypeError::NotSupported)
        },
        TypeShape::Other => Err(TypeError::NotSupported),
    }
}

/// Whether two strings hold the same characters.
fn same_str(a: &str, b: &str) -> (r: bool)
    ensures
        r == (a@ == b@),
{
    let n = a.unicode_len();
    let m = b.unicode_len();
    if n != m {
        return false;
    }
    let mut i: usize = 0;
    while i < n
        invariant
            n == a@.len(),
            m == b@.len(),
            n == m,
            i <= n,
            forall|j: int| 0 <= j < i ==> a@[j] == b@[j],
        decreases n - i,
    {
        if a.get_char(i) != b.get_char(i) {
            return false;
        }
        i = i + 1;
    }
    assert(a@ =~= b@);
    true
}

/// The type a portal carries for a path type named `name` with arguments `args`.
pub fn path_var_type(name: String, args: PathArgsShape) -> (r: Result<ProtocolVarType, TypeError>)
    ensures
        r == path_var_type_spec(name, args),
    decreases args, 1int,
{
    let ghost args0 = args;
    if same_str(name.as_str(), "Result") {
        match args {
            PathArgsShape::AngleBracketed(v) => {
                let mut v = v;
                let ghost v0 = v;
                if v.len() != 2 {
                    return Err(TypeError::OnlyTwoGenericArguments);
                }
                let second = v.pop().unwrap();
                let first = v.pop().unwrap();
                assert(first == v0@[0] && second == v0@[1]);
                match first {
                    GenericArgShape::Type(ok_shape) => match second {
                        GenericArgShape::Type(err_shape) => {
                            proof {
                                assert(decreases_to!(v0 => v0@));
                                assert(decreases_to!(v0@ => v0@[0]));
                                assert(decreases_to!(v0@ => v0@[1]));
                            }
                            let ok_ty = match ProtocolVarType::try_from(ok_shape) {
                                Ok(x) => x,
                                Err(e) => {
                                    return Err(e);
                                },
                            };
                            let err_ty = match ProtocolVarType::try_from(err_shape) {
                                Ok(x) => x,
                                Err(e) => {
                                    return Err(e);
                                },
                            };
                            Ok(ProtocolVarType::ResultKind { ok_ty: Box::new(ok_ty), err_ty: Box::new(err_ty) })
                        },
                        GenericArgShape::Other => Err(TypeError::OnlyTwoGenericArguments),
                    },
                    GenericArgShape::Other => Err(TypeError::OnlyTwoGenericArguments),
                }
            },
            _ => Err(TypeError::InvalidSyntax),
        }
    } else if same_str(name.as_str(), "i8") {
        Ok(ProtocolVarType::Signed8)
    } else if same_str(name.as_str(), "i16") {
        Ok(ProtocolVarType::Signed16)
    } else if same_str(name.as_str(), "i32") {
        Ok(ProtocolVarType::Signed32)
    } else if same_str(name.as_str(), "i64") {
        Ok(ProtocolVarType::Signed64)
    } else if same_str(name.as_str(), "u8") {
        Ok(ProtocolVarType::Unsigned8)
    } else if same_str(name.as_str(), "u16") {
        Ok(ProtocolVarType::Unsigned16)
    } else if same_str(name.as_str(), "u32") {
        Ok(ProtocolVarType::Unsigned32)
    } else if same_str(name.as_str(), "u64") {
        Ok(ProtocolVarType::Unsigned64)
    } else if same_str(name.as_str(), "str") {
        Ok(ProtocolVarType::Str)
    } else {
        Ok(ProtocolVarType::UserDefined(name))
    }
}

impl ProtocolVarType {
    /// The type a portal carries for a written type, or why it cannot carry it: `!`, `()`,
    /// the integer types, `str`, `Result` of two carried types, references and pointers to
    /// carried types, and the user's own types by name.
    pub fn try_from(t: TypeShape) -> (r: Result<ProtocolVarType, TypeError>)
        ensures
            r == var_type_of(t),
        decreases t, 2int,
    {
        match t {
            TypeShape::Never => Ok(ProtocolVarType::Never),
            TypeShape::Path { last } => match last {
                None => Err(TypeError::NotSupported),
                Some(seg) => {
                    let (name, args) = seg;
                    path_var_type(name, args)
                },
            },
            TypeShape::Ptr { is_mut, elem } => match ProtocolVarType::try_from(*elem) {
                Ok(to) => Ok(ProtocolVarType::PtrTo { is_mut, to: Box::new(to) }),
                Err(e) => Err(e),
            },
            TypeShape::Reference { is_mut, elem } => match ProtocolVarType::try_from(*elem) {
                Ok(to) => Ok(ProtocolVarType::RefTo { is_mut, to: Box::new(to) }),
                Err(e) => Err(e),
            },
            TypeShape::Tuple { elems } => if elems == 0 {
                Ok(ProtocolVarType::Unit)
            } else {
                Err(TypeError::NotSupported)
            },
            TypeShape::Other => Err(TypeError::NotSupported),
        }
    }
}

// --- the attributes of an endpoint function ------------------------------------------

/// The value given to an `event` or `handle` attribute.
#[derive(Clone, Copy, Debug, PartialEq, Eq, Structural)]
pub enum AttrValue {
    /// An integer literal that fits a `usize`.
    Int(usize),
    /// An integer literal too large for a `usize`.
    IntTooLarge,
    /// A literal that is not an integer.
    OtherLiteral,
    /// An expression that is not a literal.
    NotLiteral,
}

/// An attribute on an endpoint function: a doc comment, `event` or `handle` with the value
/// of its `= ..` form (`None` where it is not written in that form), or any other.
#[derive(Clone, Copy, Debug, PartialEq, Eq, Structural)]
pub enum AttrShape {
    Doc,
    Event(Option<AttrValue>),
    Handle(Option<AttrValue>),
    Other,
}

/// What an endpoint function is: an event or a handle with its id, or not yet known.
#[derive(Clone, Copy, Debug, PartialEq, Eq, Structural)]
pub enum EndpointKind {
    Unknown,
    Event(usize),
    Handle(usize),
}

/// A complaint about an endpoint function that does not stop reading it.
#[derive(Clone, Copy, Debug, PartialEq, Eq, Structural)]
pub enum EndpointNote {
    MultipleEvents,
    MultipleHandles,
    EventAndHandle,
    BadValue(AttrValue),
    UnsupportedAttribute,
    MissingKind,
    SelfArgument,
}

/// What stops reading an endpoint function: an `event` or `handle` attribute not written
/// as `= ..`.
#[derive(Clone, Copy, Debug, PartialEq, Eq, Structural)]
pub enum EndpointError {
    NotNameValue,
}

/// What reading the attributes of an endpoint function gives: the positions of its doc
/// comments, what it is, and the complaints met.
pub struct EndpointAttrs {
    pub docs: Vec<usize>,
    pub endpoint: EndpointKind,
    pub notes: Vec<EndpointNote>,
}

/// The state after one more attribute, at position `i`: a doc comment is kept; `event` and
/// `handle` take their id (a second one is complained about, and a value that is no
/// `usize` literal too, keeping what was there); any other attribute is complained about.
pub open spec fn attr_step(
    st: (Seq<usize>, EndpointKind, Seq<EndpointNote>),
    i: int,
    a: AttrShape,
) -> Result<(Seq<usize>, EndpointKind, Seq<EndpointNote>), EndpointError> {
    let (docs, kind, notes) = st;
    match a {
        AttrShape::Doc => Ok((docs.push(i as usize), kind, notes)),
        AttrShape::Event(None) => Err(EndpointError::NotNameValue),
        AttrShape::Handle(None) => Err(EndpointError::NotNameValue),
        AttrShape::Event(Some(v)) => {
            let n1 = match kind {
                EndpointKind::Event(_) => notes.push(EndpointNote::MultipleEvents),
                EndpointKind::Handle(_) => notes.push(EndpointNote::EventAndHandle),
                EndpointKind::Unknown => notes,
            };
            match v {
                AttrValue::Int(id) => Ok((docs, EndpointKind::Event(id), n1)),
                _ => Ok((docs, kind, n1.push(EndpointNote::BadValue(v)))),
            }
        },
        AttrShape::Handle(Some(v)) => {
            let n1 = match kind {
                EndpointKind::Handle(_) => notes.push(EndpointNote::MultipleHandles),
                EndpointKind::Event(_) => notes.push(EndpointNote::EventAndHandle),
                EndpointKind::Unknown => notes,
            };
            match v {
                AttrValue::Int(id) => Ok((docs, EndpointKind::Handle(id), n1)),
                _ => Ok((docs, kind, n1.push(EndpointNote::BadValue(v)))),
            }
        },
        AttrShape::Other => Ok((docs, kind, notes.push(EndpointNote::UnsupportedAttribute))),
    }
}

/// The state after the first `n` attributes, or the error that stopped the reading.
pub open spec fn attrs_read(attrs: Seq<AttrShape>, n: int) -> Result<
    (Seq<usize>, EndpointKind, Seq<EndpointNote>),
    EndpointError,
>
    decreases n,
{
    if n <= 0 {
        Ok((seq![], EndpointKind::Unknown, seq![]))
    } else {
        match attrs_read(attrs, n - 1) {
            Err(e) => Err(e),
            Ok(st) => attr_step(st, n - 1, attrs[n - 1]),
        }
    }
}

/// An error stops the reading: every longer prefix ends with it too.
proof fn lemma_attrs_error_stays(attrs: Seq<AttrShape>, k: int, m: int)
    requires
        0 <= k <= m,
        attrs_read(attrs, k) is Err,
    ensures
        attrs_read(attrs, m) == attrs_read(attrs, k),
    decreases m - k,
{
    if m > k {
        lemma_attrs_error_stays(attrs, k, m - 1);
    }
}

/// What reading an endpoint function with these attributes and `receivers` `self`
/// arguments gives: after the attributes, a function that is neither event nor handle is
/// complained about, and so is each `self` argument.
pub open spec fn endpoint_reading(attrs: Seq<AttrShape>, receivers: nat) -> Result<
    (Seq<usize>, EndpointKind, Seq<EndpointNote>),
    EndpointError,
> {
    match attrs_read(attrs, attrs.len() as int) {
        Err(e) => Err(e),
        Ok((docs, kind, notes)) => {
            let n1 = if kind == EndpointKind::Unknown {
                notes.push(EndpointNote::MissingKind)
            } else {
                notes
            };
            Ok((docs, kind, n1 + Seq::new(receivers, |j: int| EndpointNote::SelfArgument)))
        },
    }
}

/// Read the attributes of an endpoint function that takes `receivers` `self` arguments.
pub fn read_endpoint_attrs(attrs: &Vec<AttrShape>, receivers: usize) -> (r: Result<
    EndpointAttrs,
    EndpointError,
>)
    ensures
        match r {
            Ok(e) => endpoint_reading(attrs@, receivers as nat) == Ok::<
                (Seq<usize>, EndpointKind, Seq<EndpointNote>),
                EndpointError,
            >((e.docs@, e.endpoint, e.notes@)),
            Err(e) => endpoint_reading(attrs@, receivers as nat) == Err::<
                (Seq<usize>, EndpointKind, Seq<EndpointNote>),
                EndpointError,
            >(e),
        },
{
    let mut docs: Vec<usize> = Vec::new();
    let mut kind = EndpointKind::Unknown;
    let mut notes: Vec<EndpointNote> = Vec::new();
    let mut i: usize = 0;
    while i < attrs.len()
        invariant
            i <= attrs@.len(),
            attrs_read(attrs@, i as int) == Ok::<
                (Seq<usize>, EndpointKind, Seq<EndpointNote>),
                EndpointError,
            >((docs@, kind, notes@)),
        decreases attrs@.len() - i,
    {
        let a = attrs[i];
        match a {
            AttrShape::Doc => {
                docs.push(i);
            },
            AttrShape::Event(None) => {
                proof {
                    lemma_attrs_error_stays(attrs@, i + 1, attrs@.len() as int);
                }
                return Err(EndpointError::NotNameValue);
            },
            AttrShape::Handle(None) => {
                proof {
                    lemma_attrs_error_stays(attrs@, i + 1, attrs@.len() as int);
                }
                return Err(EndpointError::NotNameValue);
            },
            AttrShape::Event(Some(v)) => {
                match kind {
                    EndpointKind::Event(_) => notes.push(EndpointNote::MultipleEvents),
                    EndpointKind::Handle(_) => notes.push(EndpointNote::EventAndHandle),
                    EndpointKind::Unknown => {},
                }
                match v {
                    AttrValue::Int(id) => {
                        kind = EndpointKind::Event(id);
                    },
                    _ => notes.push(EndpointNote::BadValue(v)),
                }
            },
            AttrShape::Handle(Some(v)) => {
                match kind {
                    EndpointKind::Handle(_) => notes.push(EndpointNote::MultipleHandles),
                    EndpointKind::Event(_) => notes.push(EndpointNote::EventAndHandle),
                    EndpointKind::Unknown => {},
                }
                match v {
                    AttrValue::Int(id) => {
                        kind = EndpointKind::Handle(id);
                    },
                    _ => notes.push(EndpointNote::BadValue(v)),
                }
            },
            AttrShape::Other => notes.push(EndpointNote::UnsupportedAttribute),
        }
        i = i + 1;
    }
    if kind == EndpointKind::Unknown {
        notes.push(EndpointNote::MissingKind);
    }
    let ghost before = notes@;
    let mut j: usize = 0;
    while j < receivers
        invariant
            j <= receivers,
            notes@ == before + Seq::new(j as nat, |k: int| EndpointNote::SelfArgument),
        decreases receivers - j,
    {
        notes.push(EndpointNote::SelfArgument);
        j = j + 1;
        assert(notes@ =~= before + Seq::new(j as nat, |k: int| EndpointNote::SelfArgument));
    }
    proof {
        assert(attrs@.len() as int == i as int);
    }
    Ok(EndpointAttrs { docs, endpoint: kind, notes })
}

/// The fields of a variant of an enum an endpoint defines.
#[derive(Debug)]
pub enum ProtocolEnumFields {
    Empty,
    Unnamed(Vec<ProtocolVarType>),
    Named(Vec<(String, ProtocolVarType)>),
}

/// Whether one of `types` holds a reference.
fn any_reference(types: &Vec<ProtocolVarType>) -> (r: bool)
    ensures
        r == exists|k: int| 0 <= k < types@.len() && holds_reference(#[trigger] types@[k]),
{
    let mut i: usize = 0;
    while i < types.len()
        invariant
            i <= types@.len(),
            forall|k: int| 0 <= k < i ==> !holds_reference(#[trigger] types@[k]),
        decreases types@.len() - i,
    {
        if types[i].has_reference() {
            return true;
        }
        i = i + 1;
    }
    false
}

/// Whether one of the named `fields` holds a reference.
fn any_field_reference(fields: &Vec<(String, ProtocolVarType)>) -> (r: bool)
    ensures
        r == exists|k: int| 0 <= k < fields@.len() && holds_reference(#[trigger] fields@[k].1),
{
    let mut i: usize = 0;
    while i < fields.len()
        invariant
            i <= fields@.len(),
            forall|k: int| 0 <= k < i ==> !holds_reference(#[trigger] fields@[k].1),
        decreases fields@.len() - i,
    {
        if fields[i].1.has_reference() {
            assert(holds_reference(fields@[i as int].1));
            return true;
        }
        i = i + 1;
    }
    false
}

impl ProtocolEnumFields {
    /// Whether the variant needs a lifetime: one of its fields holds a reference.
    pub fn requires_lifetime(&self) -> (r: bool)
        ensures
            r == match *self {
                ProtocolEnumFields::Empty => false,
                ProtocolEnumFields::Unnamed(types) => exists|k: int|
                    0 <= k < types@.len() && holds_reference(#[trigger] types@[k]),
                ProtocolEnumFields::Named(fields) => exists|k: int|
                    0 <= k < fields@.len() && holds_reference(#[trigger] fields@[k].1),
            },
    {
        match self {
            ProtocolEnumFields::Empty => false,
            ProtocolEnumFields::Unnamed(types) => any_reference(types),
            ProtocolEnumFields::Named(fields) => any_field_reference(fields),
        }
    }
}

// --- the syscall calling convention -----------------------------------------------------

/// The syscall number of the 'pass-by-enum' calling convention
pub const SYSCALL_CALLER_ID: u64 = 1;

/// Syscall Succeeded
pub const SYSCALL_OKAY_RESP: u64 = 0;

/// Syscall's inputs where not known by the kernel
pub const SYSCALL_BAD_RESP: u64 = 1;

/// Two values packed in one word: `high` in the upper half, `low` or-ed in.
pub fn pack_halves(high: u64, low: u64) -> (r: u64)
    ensures
        r == (high << 32u64) | low,
{
    (high << 32u64) | low
}

/// Whether a packed version id is one of the reserved replies, which no syscall may use.
pub fn is_reserved_id(packed_id: u64) -> (r: bool)
    ensures
        r == (packed_id == SYSCALL_OKAY_RESP || packed_id == SYSCALL_BAD_RESP),
{
    packed_id == SYSCALL_OKAY_RESP || packed_id == SYSCALL_BAD_RESP
}

/// What the kernel does with a syscall before it runs it.
#[derive(Clone, Copy, Debug, PartialEq, Eq, Structural)]
pub enum SyscallAdmission {
    /// Answer with this reply without running the call.
    Refuse(u64),
    /// Run the call.
    Run,
}

/// The kernel's checks on a syscall, in order: the calling convention, the packed sizes
/// of input and output, their packed version ids (a mismatch is answered with the
/// kernel's own ids), and whether both pointers are valid and aligned.
pub fn admit_syscall(
    kind: u64,
    our_packed_len: u64,
    syscall_packed_len: u64,
    our_packed_id: u64,
    syscall_packed_id: u64,
    pointers_valid: bool,
) -> (r: SyscallAdmission)
    ensures
        kind != SYSCALL_CALLER_ID ==> r == SyscallAdmission::Refuse(SYSCALL_BAD_RESP),
        kind == SYSCALL_CALLER_ID && our_packed_len != syscall_packed_len ==> r
            == SyscallAdmission::Refuse(SYSCALL_BAD_RESP),
        kind == SYSCALL_CALLER_ID && our_packed_len == syscall_packed_len && our_packed_id
            != syscall_packed_id ==> r == SyscallAdmission::Refuse(our_packed_id),
        kind == SYSCALL_CALLER_ID && our_packed_len == syscall_packed_len && our_packed_id
            == syscall_packed_id && !pointers_valid ==> r == SyscallAdmission::Refuse(
            SYSCALL_BAD_RESP,
        ),
        kind == SYSCALL_CALLER_ID && our_packed_len == syscall_packed_len && our_packed_id
            == syscall_packed_id && pointers_valid ==> r == SyscallAdmission::Run,
{
    if kind != SYSCALL_CALLER_ID {
        return SyscallAdmission::Refuse(SYSCALL_BAD_RESP);
    }
    if our_packed_len != syscall_packed_len {
        return SyscallAdmission::Refuse(SYSCALL_BAD_RESP);
    }
    if our_packed_id != syscall_packed_id {
        return SyscallAdmission::Refuse(our_packed_id);
    }
    if !pointers_valid {
        return SyscallAdmission::Refuse(SYSCALL_BAD_RESP);
    }
    SyscallAdmission::Run
}

/// How the kernel answered a syscall.
#[derive(Clone, Copy, Debug, PartialEq, Eq, Structural)]
pub enum SyscallReply {
    Okay,
    NotUnderstood,
    /// The kernel's own version ids of the input and the output.
    VersionMismatch { input: u64, output: u64 },
}

/// Read the kernel's reply to a syscall.
pub fn read_reply(reply: u64) -> (r: SyscallReply)
    ensures
        reply == SYSCALL_OKAY_RESP ==> r == SyscallReply::Okay,
        reply == SYSCALL_BAD_RESP ==> r == SyscallReply::NotUnderstood,
        reply != SYSCALL_OKAY_RESP && reply != SYSCALL_BAD_RESP ==> r
            == (SyscallReply::VersionMismatch { input: reply >> 32u64, output: reply & 0xffff_ffffu64 }),
{
    if reply == SYSCALL_OKAY_RESP {
        SyscallReply::Okay
    } else if reply == SYSCALL_BAD_RESP {
        SyscallReply::NotUnderstood
    } else {
        SyscallReply::VersionMismatch { input: reply >> 32u64, output: reply & 0xffff_ffffu64 }
    }
}

/// Version ids packed in one word, as a kernel answers a version mismatch, are read back
/// unchanged from the reply.
pub proof fn lemma_version_mismatch_round_trip(input_id: u64, output_id: u64)
    requires
        input_id < 0x1_0000_0000,
        output_id < 0x1_0000_0000,
    ensures
        ({
            let packed = (input_id << 32u64) | output_id;
            &&& packed >> 32u64 == input_id
            &&& packed & 0xffff_ffffu64 == output_id
        }),
{
    assert((((input_id << 32u64) | output_id) >> 32u64) == input_id) by (bit_vector)
        requires
            input_id < 0x1_0000_0000,
            output_id < 0x1_0000_0000,
    ;
    assert((((input_id << 32u64) | output_id) & 0xffff_ffffu64) == output_id) by (bit_vector)
        requires
            output_id < 0x1_0000_0000,
    ;
}

} // verus!
