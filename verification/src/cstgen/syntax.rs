use vstd::prelude::*;

verus! {

/// The kind of a token or of a node of the concrete syntax tree.
///
/// The variants up to `Eof` are token kinds; the rest are node kinds.
/// A kind's raw number is its position in this list, starting at 0.
#[derive(Debug, PartialEq, Eq, Structural, Copy, Clone, Hash, Ord, PartialOrd)]
pub enum SyntaxKind {
    /// A line comment: `//` up to (not including) the next `\r` or `\n`.
    Comment,
    /// An identifier: an XID_Start character or `_`, then any number of XID_Continue characters.
    Ident,
    /// `=`
    Eq,
    /// `;`
    Semi,
    /// `.`
    Dot,
    /// `:`
    Colon,
    /// `,`
    Comma,
    /// `!`
    Bang,
    /// `?`
    Question,
    /// `#`
    Pound,
    /// `&`
    Ampersand,
    /// `&!`
    AmpersandBang,
    /// `*`
    Asterisk,
    /// `=>`
    EqGt,
    /// `|`
    Pipe,
    /// `/`
    Slash,
    /// `<`
    Lt,
    /// `>`
    Gt,
    /// `-`
    Minus,
    /// `->`
    Arrow,
    /// `let`
    LetKw,
    /// `pub`
    PubKw,
    /// `fn`
    FnKw,
    /// `const`
    ConstKw,
    /// `enum`
    EnumKw,
    /// `trait`
    TraitKw,
    /// `impl`
    ImplKw,
    /// `struct`
    StructKw,
    /// `match`
    MatchKw,
    /// `defer`
    DeferKw,
    /// `mut`
    MutKw,
    /// `for`
    ForKw,
    /// `if`
    IfKw,
    /// `else`
    ElseKw,
    /// `(`
    ParenOpen,
    /// `)`
    ParenClose,
    /// `{`
    BraceOpen,
    /// `}`
    BraceClose,
    /// `[`
    BracketOpen,
    /// `]`
    BracketClose,
    /// A character that starts no token.
    Unknown,
    /// A maximal run of White_Space characters.
    Whitespace,
    /// The end of the input.
    Eof,
    /// Composite: a source file.
    File,
    ItemConst,
    ItemExpr,
    Expr,
    ExprClosure,
    ExprRef,
    ExprPtr,
    ExprBlock,
    ExprMacro,
    ExprParen,
    ExprTrait,
    ExprStruct,
    ExprEnum,
    ExprIdent,
    ExprImpl,
    ExprIf,
    ExprBinary,
    ArgList,
    Arg,
    ExprField,
    ExprCall,
    Statement,
    StructField,
    StmtExpr,
    StmtLocal,
    Type,
    CallArgs,
    PatIdent,
    Name,
}

/// Number of syntax kinds; raw numbers run from 0 below it.
pub const KIND_COUNT: u16 = 72;

/// The raw number of a kind: its position in the declaration of [`SyntaxKind`].
pub open spec fn raw_of(kind: SyntaxKind) -> u16 {
    match kind {
        SyntaxKind::Comment => 0,
        SyntaxKind::Ident => 1,
        SyntaxKind::Eq => 2,
        SyntaxKind::Semi => 3,
        SyntaxKind::Dot => 4,
        SyntaxKind::Colon => 5,
        SyntaxKind::Comma => 6,
        SyntaxKind::Bang => 7,
        SyntaxKind::Question => 8,
        SyntaxKind::Pound => 9,
        SyntaxKind::Ampersand => 10,
        SyntaxKind::AmpersandBang => 11,
        SyntaxKind::Asterisk => 12,
        SyntaxKind::EqGt => 13,
        SyntaxKind::Pipe => 14,
        SyntaxKind::Slash => 15,
        SyntaxKind::Lt => 16,
        SyntaxKind::Gt => 17,
        SyntaxKind::Minus => 18,
        SyntaxKind::Arrow => 19,
        SyntaxKind::LetKw => 20,
        SyntaxKind::PubKw => 21,
        SyntaxKind::FnKw => 22,
        SyntaxKind::ConstKw => 23,
        SyntaxKind::EnumKw => 24,
        SyntaxKind::TraitKw => 25,
        SyntaxKind::ImplKw => 26,
        SyntaxKind::StructKw => 27,
        SyntaxKind::MatchKw => 28,
        SyntaxKind::DeferKw => 29,
        SyntaxKind::MutKw => 30,
        SyntaxKind::ForKw => 31,
        SyntaxKind::IfKw => 32,
        SyntaxKind::ElseKw => 33,
        SyntaxKind::ParenOpen => 34,
        SyntaxKind::ParenClose => 35,
        SyntaxKind::BraceOpen => 36,
        SyntaxKind::BraceClose => 37,
        SyntaxKind::BracketOpen => 38,
        SyntaxKind::BracketClose => 39,
        SyntaxKind::Unknown => 40,
        SyntaxKind::Whitespace => 41,
        SyntaxKind::Eof => 42,
        SyntaxKind::File => 43,
        SyntaxKind::ItemConst => 44,
        SyntaxKind::ItemExpr => 45,
        SyntaxKind::Expr => 46,
        SyntaxKind::ExprClosure => 47,
        SyntaxKind::ExprRef => 48,
        SyntaxKind::ExprPtr => 49,
        SyntaxKind::ExprBlock => 50,
        SyntaxKind::ExprMacro => 51,
        SyntaxKind::ExprParen => 52,
        SyntaxKind::ExprTrait => 53,
        SyntaxKind::ExprStruct => 54,
        SyntaxKind::ExprEnum => 55,
        SyntaxKind::ExprIdent => 56,
        SyntaxKind::ExprImpl => 57,
        SyntaxKind::ExprIf => 58,
        SyntaxKind::ExprBinary => 59,
        SyntaxKind::ArgList => 60,
        SyntaxKind::Arg => 61,
        SyntaxKind::ExprField => 62,
        SyntaxKind::ExprCall => 63,
        SyntaxKind::Statement => 64,
        SyntaxKind::StructField => 65,
        SyntaxKind::StmtExpr => 66,
        SyntaxKind::StmtLocal => 67,
        SyntaxKind::Type => 68,
        SyntaxKind::CallArgs => 69,
        SyntaxKind::PatIdent => 70,
        SyntaxKind::Name => 71,
    }
}

/// The kind whose raw number is `raw` (`Unknown` for numbers out of range).
pub open spec fn kind_of_raw(raw: u16) -> SyntaxKind {
    match raw {
        0 => SyntaxKind::Comment,
        1 => SyntaxKind::Ident,
        2 => SyntaxKind::Eq,
        3 => SyntaxKind::Semi,
        4 => SyntaxKind::Dot,
        5 => SyntaxKind::Colon,
        6 => SyntaxKind::Comma,
        7 => SyntaxKind::Bang,
        8 => SyntaxKind::Question,
        9 => SyntaxKind::Pound,
        10 => SyntaxKind::Ampersand,
        11 => SyntaxKind::AmpersandBang,
        12 => SyntaxKind::Asterisk,
        13 => SyntaxKind::EqGt,
        14 => SyntaxKind::Pipe,
        15 => SyntaxKind::Slash,
        16 => SyntaxKind::Lt,
        17 => SyntaxKind::Gt,
        18 => SyntaxKind::Minus,
        19 => SyntaxKind::Arrow,
        20 => SyntaxKind::LetKw,
        21 => SyntaxKind::PubKw,
        22 => SyntaxKind::FnKw,
        23 => SyntaxKind::ConstKw,
        24 => SyntaxKind::EnumKw,
        25 => SyntaxKind::TraitKw,
        26 => SyntaxKind::ImplKw,
        27 => SyntaxKind::StructKw,
        28 => SyntaxKind::MatchKw,
        29 => SyntaxKind::DeferKw,
        30 => SyntaxKind::MutKw,
        31 => SyntaxKind::ForKw,
        32 => SyntaxKind::IfKw,
        33 => SyntaxKind::ElseKw,
        34 => SyntaxKind::ParenOpen,
        35 => SyntaxKind::ParenClose,
        36 => SyntaxKind::BraceOpen,
        37 => SyntaxKind::BraceClose,
        38 => SyntaxKind::BracketOpen,
        39 => SyntaxKind::BracketClose,
        40 => SyntaxKind::Unknown,
        41 => SyntaxKind::Whitespace,
        42 => SyntaxKind::Eof,
        43 => SyntaxKind::File,
        44 => SyntaxKind::ItemConst,
        45 => SyntaxKind::ItemExpr,
        46 => SyntaxKind::Expr,
        47 => SyntaxKind::ExprClosure,
        48 => SyntaxKind::ExprRef,
        49 => SyntaxKind::ExprPtr,
        50 => SyntaxKind::ExprBlock,
        51 => SyntaxKind::ExprMacro,
        52 => SyntaxKind::ExprParen,
        53 => SyntaxKind::ExprTrait,
        54 => SyntaxKind::ExprStruct,
        55 => SyntaxKind::ExprEnum,
        56 => SyntaxKind::ExprIdent,
        57 => SyntaxKind::ExprImpl,
        58 => SyntaxKind::ExprIf,
        59 => SyntaxKind::ExprBinary,
        60 => SyntaxKind::ArgList,
        61 => SyntaxKind::Arg,
        62 => SyntaxKind::ExprField,
        63 => SyntaxKind::ExprCall,
        64 => SyntaxKind::Statement,
        65 => SyntaxKind::StructField,
        66 => SyntaxKind::StmtExpr,
        67 => SyntaxKind::StmtLocal,
        68 => SyntaxKind::Type,
        69 => SyntaxKind::CallArgs,
        70 => SyntaxKind::PatIdent,
        71 => SyntaxKind::Name,
        _ => SyntaxKind::Unknown,
    }
}

/// Whether a kind is a token kind (declared before the node kinds).
pub open spec fn is_token_kind(kind: SyntaxKind) -> bool {
    raw_of(kind) <= raw_of(SyntaxKind::Eof)
}

/// Every kind has a raw number below [`KIND_COUNT`], and the raw number gives the kind back.
pub proof fn lemma_raw_roundtrip(kind: SyntaxKind)
    ensures
        raw_of(kind) < KIND_COUNT,
        kind_of_raw(raw_of(kind)) == kind,
{
}

/// Two kinds with the same raw number are the same kind.
pub proof fn lemma_raw_injective(a: SyntaxKind, b: SyntaxKind)
    ensures
        raw_of(a) == raw_of(b) <==> a == b,
{
    lemma_raw_roundtrip(a);
    lemma_raw_roundtrip(b);
}

impl SyntaxKind {
    /// The raw number of this kind.
    pub fn to_raw(self) -> (raw: u16)
        ensures
            raw == raw_of(self),
    {
        match self {
            SyntaxKind::Comment => 0,
            SyntaxKind::Ident => 1,
            SyntaxKind::Eq => 2,
            SyntaxKind::Semi => 3,
            SyntaxKind::Dot => 4,
            SyntaxKind::Colon => 5,
            SyntaxKind::Comma => 6,
            SyntaxKind::Bang => 7,
            SyntaxKind::Question => 8,
            SyntaxKind::Pound => 9,
            SyntaxKind::Ampersand => 10,
            SyntaxKind::AmpersandBang => 11,
            SyntaxKind::Asterisk => 12,
            SyntaxKind::EqGt => 13,
            SyntaxKind::Pipe => 14,
            SyntaxKind::Slash => 15,
            SyntaxKind::Lt => 16,
            SyntaxKind::Gt => 17,
            SyntaxKind::Minus => 18,
            SyntaxKind::Arrow => 19,
            SyntaxKind::LetKw => 20,
            SyntaxKind::PubKw => 21,
            SyntaxKind::FnKw => 22,
            SyntaxKind::ConstKw => 23,
            SyntaxKind::EnumKw => 24,
            SyntaxKind::TraitKw => 25,
            SyntaxKind::ImplKw => 26,
            SyntaxKind::StructKw => 27,
            SyntaxKind::MatchKw => 28,
            SyntaxKind::DeferKw => 29,
            SyntaxKind::MutKw => 30,
            SyntaxKind::ForKw => 31,
            SyntaxKind::IfKw => 32,
            SyntaxKind::ElseKw => 33,
            SyntaxKind::ParenOpen => 34,
            SyntaxKind::ParenClose => 35,
            SyntaxKind::BraceOpen => 36,
            SyntaxKind::BraceClose => 37,
            SyntaxKind::BracketOpen => 38,
            SyntaxKind::BracketClose => 39,
            SyntaxKind::Unknown => 40,
            SyntaxKind::Whitespace => 41,
            SyntaxKind::Eof => 42,
            SyntaxKind::File => 43,
            SyntaxKind::ItemConst => 44,
            SyntaxKind::ItemExpr => 45,
            SyntaxKind::Expr => 46,
            SyntaxKind::ExprClosure => 47,
            SyntaxKind::ExprRef => 48,
            SyntaxKind::ExprPtr => 49,
            SyntaxKind::ExprBlock => 50,
            SyntaxKind::ExprMacro => 51,
            SyntaxKind::ExprParen => 52,
            SyntaxKind::ExprTrait => 53,
            SyntaxKind::ExprStruct => 54,
            SyntaxKind::ExprEnum => 55,
            SyntaxKind::ExprIdent => 56,
            SyntaxKind::ExprImpl => 57,
            SyntaxKind::ExprIf => 58,
            SyntaxKind::ExprBinary => 59,
            SyntaxKind::ArgList => 60,
            SyntaxKind::Arg => 61,
            SyntaxKind::ExprField => 62,
            SyntaxKind::ExprCall => 63,
            SyntaxKind::Statement => 64,
            SyntaxKind::StructField => 65,
            SyntaxKind::StmtExpr => 66,
            SyntaxKind::StmtLocal => 67,
            SyntaxKind::Type => 68,
            SyntaxKind::CallArgs => 69,
            SyntaxKind::PatIdent => 70,
            SyntaxKind::Name => 71,
        }
    }

    /// The kind with the given raw number, if there is one.
    pub fn from_raw(raw: u16) -> (kind: Option<SyntaxKind>)
        ensures
            kind is Some <==> raw < KIND_COUNT,
            kind matches Some(k) ==> k == kind_of_raw(raw) && raw_of(k) == raw,
    {
        match raw {
            0 => Some(SyntaxKind::Comment),
            1 => Some(SyntaxKind::Ident),
            2 => Some(SyntaxKind::Eq),
            3 => Some(SyntaxKind::Semi),
            4 => Some(SyntaxKind::Dot),
            5 => Some(SyntaxKind::Colon),
            6 => Some(SyntaxKind::Comma),
            7 => Some(SyntaxKind::Bang),
            8 => Some(SyntaxKind::Question),
            9 => Some(SyntaxKind::Pound),
            10 => Some(SyntaxKind::Ampersand),
            11 => Some(SyntaxKind::AmpersandBang),
            12 => Some(SyntaxKind::Asterisk),
            13 => Some(SyntaxKind::EqGt),
            14 => Some(SyntaxKind::Pipe),
            15 => Some(SyntaxKind::Slash),
            16 => Some(SyntaxKind::Lt),
            17 => Some(SyntaxKind::Gt),
            18 => Some(SyntaxKind::Minus),
            19 => Some(SyntaxKind::Arrow),
            20 => Some(SyntaxKind::LetKw),
            21 => Some(SyntaxKind::PubKw),
            22 => Some(SyntaxKind::FnKw),
            23 => Some(SyntaxKind::ConstKw),
            24 => Some(SyntaxKind::EnumKw),
            25 => Some(SyntaxKind::TraitKw),
            26 => Some(SyntaxKind::ImplKw),
            27 => Some(SyntaxKind::StructKw),
            28 => Some(SyntaxKind::MatchKw),
            29 => Some(SyntaxKind::DeferKw),
            30 => Some(SyntaxKind::MutKw),
            31 => Some(SyntaxKind::ForKw),
            32 => Some(SyntaxKind::IfKw),
            33 => Some(SyntaxKind::ElseKw),
            34 => Some(SyntaxKind::ParenOpen),
            35 => Some(SyntaxKind::ParenClose),
            36 => Some(SyntaxKind::BraceOpen),
            37 => Some(SyntaxKind::BraceClose),
            38 => Some(SyntaxKind::BracketOpen),
            39 => Some(SyntaxKind::BracketClose),
            40 => Some(SyntaxKind::Unknown),
            41 => Some(SyntaxKind::Whitespace),
            42 => Some(SyntaxKind::Eof),
            43 => Some(SyntaxKind::File),
            44 => Some(SyntaxKind::ItemConst),
            45 => Some(SyntaxKind::ItemExpr),
            46 => Some(SyntaxKind::Expr),
            47 => Some(SyntaxKind::ExprClosure),
            48 => Some(SyntaxKind::ExprRef),
            49 => Some(SyntaxKind::ExprPtr),
            50 => Some(SyntaxKind::ExprBlock),
            51 => Some(SyntaxKind::ExprMacro),
            52 => Some(SyntaxKind::ExprParen),
            53 => Some(SyntaxKind::ExprTrait),
            54 => Some(SyntaxKind::ExprStruct),
            55 => Some(SyntaxKind::ExprEnum),
            56 => Some(SyntaxKind::ExprIdent),
            57 => Some(SyntaxKind::ExprImpl),
            58 => Some(SyntaxKind::ExprIf),
            59 => Some(SyntaxKind::ExprBinary),
            60 => Some(SyntaxKind::ArgList),
            61 => Some(SyntaxKind::Arg),
            62 => Some(SyntaxKind::ExprField),
            63 => Some(SyntaxKind::ExprCall),
            64 => Some(SyntaxKind::Statement),
            65 => Some(SyntaxKind::StructField),
            66 => Some(SyntaxKind::StmtExpr),
            67 => Some(SyntaxKind::StmtLocal),
            68 => Some(SyntaxKind::Type),
            69 => Some(SyntaxKind::CallArgs),
            70 => Some(SyntaxKind::PatIdent),
            71 => Some(SyntaxKind::Name),
            _ => None,
        }
    }
}

/// The language of fin syntax trees: it ties raw kind numbers to [`SyntaxKind`].
#[derive(Debug, Clone, Copy, PartialEq, Eq, PartialOrd, Ord, Hash)]
pub struct Lang;

impl Lang {
    /// The kind that a raw number stands for; the number must be one that [`Lang::kind_to_raw`] gives.
    pub fn kind_from_raw(raw: u16) -> (kind: SyntaxKind)
        requires
            raw < KIND_COUNT,
        ensures
            raw_of(kind) == raw,
            kind == kind_of_raw(raw),
    {
        match SyntaxKind::from_raw(raw) {
            Some(kind) => kind,
            None => SyntaxKind::Unknown,
        }
    }

    /// The raw number of a kind.
    pub fn kind_to_raw(kind: SyntaxKind) -> (raw: u16)
        ensures
            raw == raw_of(kind),
    {
        kind.to_raw()
    }
}

} // verus!
