//! The relation model: tables, views, attributes, constraints and column
//! types, together with the renderers that turn them back into SQL text.

use vstd::prelude::*;
use vstd::view::View as _;

use crate::sql::{kind_of, DDL, QDL, QML, StatementKind};
use crate::text::{append_u64, join_strings, spec_join, spec_nat_str, str_to_chars, views_of};

verus! {

/// A restriction on one attribute.  Two constraints compare equal when they
/// are of the same variant, whatever a foreign key refers to.
#[derive(Debug, Clone)]
pub enum Constraint {
    NotNull,
    Unique,
    ForeignKey { table_name: String, attribute_name: String },
    AutoIncrement,
}

impl Constraint {
    /// Whether the two constraints are of the same variant.
    pub open spec fn same_kind(self, other: Constraint) -> bool {
        match (self, other) {
            (Constraint::NotNull, Constraint::NotNull) => true,
            (Constraint::Unique, Constraint::Unique) => true,
            (Constraint::AutoIncrement, Constraint::AutoIncrement) => true,
            (Constraint::ForeignKey { .. }, Constraint::ForeignKey { .. }) => true,
            _ => false,
        }
    }
}

impl PartialEq for Constraint {
    fn eq(&self, other: &Constraint) -> (r: bool) {
        match (self, other) {
            (Constraint::NotNull, Constraint::NotNull) => true,
            (Constraint::Unique, Constraint::Unique) => true,
            (Constraint::AutoIncrement, Constraint::AutoIncrement) => true,
            (Constraint::ForeignKey { .. }, Constraint::ForeignKey { .. }) => true,
            _ => false,
        }
    }
}

impl Eq for Constraint {

}

impl vstd::std_specs::cmp::PartialEqSpecImpl for Constraint {
    open spec fn obeys_eq_spec() -> bool {
        true
    }

    open spec fn eq_spec(&self, other: &Constraint) -> bool {
        self.same_kind(*other)
    }
}

/// A column type of the target database engine.  The numeric parameters are
/// the declared display sizes.
#[derive(Debug, Clone)]
pub enum AttributeType {
    Char(u8),
    VarChar(u16),
    Binary(u8),
    VarBinary(u16),
    TinyBlob,
    TinyText,
    Text(u16),
    Blob(u16),
    MediumText,
    MediumBlob,
    LongText,
    LongBlob,
    Bit(u8),
    TinyInt(u8),
    Bool,
    Boolean,
    SmallInt(u8),
    MediumInt(u8),
    Int(u8),
    BigInt(u8),
    Float(u8),
    Decimal(u8, u8),
    Date,
    DateTime,
    TimeStamp,
    Time,
    Year,
}

/// The rendered form of a column type, as it appears in CREATE statements.
pub open spec fn spec_type_str(t: AttributeType) -> Seq<char> {
    match t {
        AttributeType::Char(v) => "char("@ + spec_nat_str(v as nat) + ")"@,
        AttributeType::VarChar(v) => "varchar("@ + spec_nat_str(v as nat) + ")"@,
        AttributeType::Binary(v) => "binary("@ + spec_nat_str(v as nat) + ")"@,
        AttributeType::VarBinary(v) => "varbinary("@ + spec_nat_str(v as nat) + ")"@,
        AttributeType::TinyBlob => "tinyblob"@,
        AttributeType::TinyText => "tinytext"@,
        AttributeType::Text(v) => "text("@ + spec_nat_str(v as nat) + ")"@,
        AttributeType::Blob(v) => "blob("@ + spec_nat_str(v as nat) + ")"@,
        AttributeType::MediumText => "mediumtext"@,
        AttributeType::MediumBlob => "mediumblob"@,
        AttributeType::LongText => "longtext"@,
        AttributeType::LongBlob => "longblob"@,
        AttributeType::Bit(v) => "bit("@ + spec_nat_str(v as nat) + ")"@,
        AttributeType::TinyInt(v) => "tinyint("@ + spec_nat_str(v as nat) + ")"@,
        AttributeType::Bool => "bool"@,
        AttributeType::Boolean => "boolean"@,
        AttributeType::SmallInt(v) => "smallint("@ + spec_nat_str(v as nat) + ")"@,
        AttributeType::MediumInt(v) => "mediumint("@ + spec_nat_str(v as nat) + ")"@,
        AttributeType::Int(v) => "int("@ + spec_nat_str(v as nat) + ")"@,
        AttributeType::BigInt(v) => "bigint("@ + spec_nat_str(v as nat) + ")"@,
        AttributeType::Float(v) => "float("@ + spec_nat_str(v as nat) + ")"@,
        AttributeType::Decimal(a, b) => "decmimal("@ + spec_nat_str(a as nat) + ","@ + spec_nat_str(
            b as nat,
        ) + ")"@,
        AttributeType::Date => "date"@,
        AttributeType::DateTime => "datetime"@,
        AttributeType::TimeStamp => "timeStamp"@,
        AttributeType::Time => "time"@,
        AttributeType::Year => "year"@,
    }
}

/// Builds `{kw}{n})`, the tail of a sized type's rendering.
fn paren_num(kw: &str, n: u64) -> (r: String)
    ensures
        r@ == kw@ + spec_nat_str(n as nat) + ")"@,
{
    let mut s = String::new();
    s.append(kw);
    append_u64(&mut s, n);
    s.append(")");
    s
}

impl AttributeType {
    /// Renders the type as it appears inside a CREATE statement.
    pub fn type_str(&self) -> (r: String)
        ensures
            r@ == spec_type_str(*self),
    {
        match self {
            AttributeType::Char(v) => paren_num("char(", *v as u64),
            AttributeType::VarChar(v) => paren_num("varchar(", *v as u64),
            AttributeType::Binary(v) => paren_num("binary(", *v as u64),
            AttributeType::VarBinary(v) => paren_num("varbinary(", *v as u64),
            AttributeType::TinyBlob => {
                let mut s = String::new();
                s.append("tinyblob");
                s
            },
            AttributeType::TinyText => {
                let mut s = String::new();
                s.append("tinytext");
                s
            },
            AttributeType::Text(v) => paren_num("text(", *v as u64),
            AttributeType::Blob(v) => paren_num("blob(", *v as u64),
            AttributeType::MediumText => {
                let mut s = String::new();
                s.append("mediumtext");
                s
            },
            AttributeType::MediumBlob => {
                let mut s = String::new();
                s.append("mediumblob");
                s
            },
            AttributeType::LongText => {
                let mut s = String::new();
                s.append("longtext");
                s
            },
            AttributeType::LongBlob => {
                let mut s = String::new();
                s.append("longblob");
                s
            },
            AttributeType::Bit(v) => paren_num("bit(", *v as u64),
            AttributeType::TinyInt(v) => paren_num("tinyint(", *v as u64),
            AttributeType::Bool => {
                let mut s = String::new();
                s.append("bool");
                s
            },
            AttributeType::Boolean => {
                let mut s = String::new();
                s.append("boolean");
                s
            },
            AttributeType::SmallInt(v) => paren_num("smallint(", *v as u64),
            AttributeType::MediumInt(v) => paren_num("mediumint(", *v as u64),
            AttributeType::Int(v) => paren_num("int(", *v as u64),
            AttributeType::BigInt(v) => paren_num("bigint(", *v as u64),
            AttributeType::Float(v) => paren_num("float(", *v as u64),
            AttributeType::Decimal(a, b) => {
                let mut s = String::new();
                s.append("decmimal(");
                append_u64(&mut s, *a as u64);
                s.append(",");
                append_u64(&mut s, *b as u64);
                s.append(")");
                s
            },
            AttributeType::Date => {
                let mut s = String::new();
                s.append("date");
                s
            },
            AttributeType::DateTime => {
                let mut s = String::new();
                s.append("datetime");
                s
            },
            AttributeType::TimeStamp => {
                let mut s = String::new();
                s.append("timeStamp");
                s
            },
            AttributeType::Time => {
                let mut s = String::new();
                s.append("time");
                s
            },
            AttributeType::Year => {
                let mut s = String::new();
                s.append("year");
                s
            },
        }
    }
}

/// Whether `c` is a decimal digit.
pub open spec fn is_digit(c: char) -> bool {
    48 <= c as u32 && c as u32 <= 57
}

/// The numeric value of a digit character.
pub open spec fn digit_val(c: char) -> nat {
    (c as u32 - 48) as nat
}

/// The first position at or after `from` that does not hold a digit.
pub open spec fn digits_end(s: Seq<char>, from: int) -> int
    decreases s.len() - from when 0 <= from <= s.len()
{
    if from >= s.len() || !is_digit(s[from]) {
        from
    } else {
        digits_end(s, from + 1)
    }
}

/// The value of a digit run, read left to right.
pub open spec fn run_val(s: Seq<char>) -> nat
    decreases s.len(),
{
    if s.len() == 0 {
        0
    } else {
        run_val(s.drop_last()) * 10 + digit_val(s.last())
    }
}

/// Whether `p` is a prefix of `s`.
pub open spec fn spec_prefix(s: Seq<char>, p: Seq<char>) -> bool {
    s.len() >= p.len() && forall|i: int| 0 <= i < p.len() ==> s[i] == p[i]
}

/// The number in `{kw}{digits})` when `s` starts with that pattern; the
/// keyword carries the opening parenthesis.
pub open spec fn spec_paren_num(s: Seq<char>, kw: Seq<char>) -> Option<nat> {
    if !spec_prefix(s, kw) {
        None
    } else {
        let d0 = kw.len() as int;
        let de = digits_end(s, d0);
        if de > d0 && de < s.len() && s[de] == ')' {
            Some(run_val(s.subrange(d0, de)))
        } else {
            None
        }
    }
}

/// The two numbers in `{kw}{digits},{digits})` when `s` starts with that
/// pattern.
pub open spec fn spec_decimal_nums(s: Seq<char>, kw: Seq<char>) -> Option<(nat, nat)> {
    if !spec_prefix(s, kw) {
        None
    } else {
        let d0 = kw.len() as int;
        let de = digits_end(s, d0);
        if !(de > d0 && de < s.len() && s[de] == ',') {
            None
        } else {
            let e0 = de + 1;
            let ee = digits_end(s, e0);
            if ee > e0 && ee < s.len() && s[ee] == ')' {
                Some((run_val(s.subrange(d0, de)), run_val(s.subrange(e0, ee))))
            } else {
                None
            }
        }
    }
}

/// A sized type's parse result, cut off at the width's bound.
pub open spec fn sized_type(r: Option<nat>, bound: nat, f: spec_fn(nat) -> AttributeType) -> Option<
    AttributeType,
> {
    match r {
        Some(n) => if n <= bound {
            Some(f(n))
        } else {
            None
        },
        None => None,
    }
}

/// The column type that a raw type string denotes: the patterns are tried in
/// a fixed order, each matching as a prefix; a matching pattern whose size
/// does not fit the width of the variant yields `None`.
pub open spec fn spec_attr_type_of(s: Seq<char>) -> Option<AttributeType> {
    if spec_paren_num(s, "CHAR("@) is Some {
        sized_type(spec_paren_num(s, "CHAR("@), 255, |n: nat| AttributeType::Char(n as u8))
    } else if spec_paren_num(s, "VARCHAR("@) is Some {
        sized_type(spec_paren_num(s, "VARCHAR("@), 65535, |n: nat| AttributeType::VarChar(n as u16))
    } else if spec_paren_num(s, "BINARY("@) is Some {
        sized_type(spec_paren_num(s, "BINARY("@), 255, |n: nat| AttributeType::Binary(n as u8))
    } else if spec_paren_num(s, "VARBINARY("@) is Some {
        sized_type(
            spec_paren_num(s, "VARBINARY("@),
            65535,
            |n: nat| AttributeType::VarBinary(n as u16),
        )
    } else if spec_prefix(s, "TINYBLOB"@) {
        Some(AttributeType::TinyBlob)
    } else if spec_prefix(s, "TINYTEXT"@) {
        Some(AttributeType::TinyText)
    } else if spec_paren_num(s, "TEXT("@) is Some {
        sized_type(spec_paren_num(s, "TEXT("@), 65535, |n: nat| AttributeType::Text(n as u16))
    } else if spec_paren_num(s, "BLOB("@) is Some {
        sized_type(spec_paren_num(s, "BLOB("@), 65535, |n: nat| AttributeType::Blob(n as u16))
    } else if spec_prefix(s, "MEDIUMTEXT"@) {
        Some(AttributeType::MediumText)
    } else if spec_prefix(s, "LONGTEXT"@) {
        Some(AttributeType::LongText)
    } else if spec_prefix(s, "LONGBLOB"@) {
        Some(AttributeType::LongBlob)
    } else if spec_paren_num(s, "BIT("@) is Some {
        sized_type(spec_paren_num(s, "BIT("@), 255, |n: nat| AttributeType::Bit(n as u8))
    } else if spec_paren_num(s, "TINYINT("@) is Some {
        sized_type(spec_paren_num(s, "TINYINT("@), 255, |n: nat| AttributeType::TinyInt(n as u8))
    } else if spec_prefix(s, "BOOL"@) {
        Some(AttributeType::Bool)
    } else if spec_prefix(s, "BOOLEAN"@) {
        Some(AttributeType::Boolean)
    } else if spec_paren_num(s, "SMALLINT("@) is Some {
        sized_type(spec_paren_num(s, "SMALLINT("@), 255, |n: nat| AttributeType::SmallInt(n as u8))
    } else if spec_paren_num(s, "MEDIUMINT("@) is Some {
        sized_type(
            spec_paren_num(s, "MEDIUMINT("@),
            255,
            |n: nat| AttributeType::MediumInt(n as u8),
        )
    } else if spec_paren_num(s, "INT("@) is Some {
        sized_type(spec_paren_num(s, "INT("@), 255, |n: nat| AttributeType::Int(n as u8))
    } else if spec_paren_num(s, "INTEGER("@) is Some {
        sized_type(spec_paren_num(s, "INTEGER("@), 255, |n: nat| AttributeType::Int(n as u8))
    } else if spec_paren_num(s, "BigInt("@) is Some {
        sized_type(spec_paren_num(s, "BigInt("@), 255, |n: nat| AttributeType::BigInt(n as u8))
    } else if spec_paren_num(s, "FLOAT("@) is Some {
        sized_type(spec_paren_num(s, "FLOAT("@), 255, |n: nat| AttributeType::Float(n as u8))
    } else if spec_decimal_nums(s, "DECIMAL("@) is Some {
        match spec_decimal_nums(s, "DECIMAL("@) {
            Some(p) => if p.0 <= 255 && p.1 <= 255 {
                Some(AttributeType::Decimal(p.0 as u8, p.1 as u8))
            } else {
                None
            },
            None => None,
        }
    } else if spec_prefix(s, "DATE"@) {
        Some(AttributeType::Date)
    } else if spec_prefix(s, "DATETIME"@) {
        Some(AttributeType::DateTime)
    } else if spec_prefix(s, "TIMESTAMP"@) {
        Some(AttributeType::TimeStamp)
    } else if spec_prefix(s, "TIME"@) {
        Some(AttributeType::Time)
    } else if spec_prefix(s, "YEAR"@) {
        Some(AttributeType::Year)
    } else {
        None
    }
}

/// Whether the character is a decimal digit.
pub(crate) fn check_digit(c: char) -> (b: bool)
    ensures
        b == is_digit(c),
{
    let u: u32 = c as u32;
    48 <= u && u <= 57
}

/// Whether `p` is a prefix of `s`.
fn starts_with(s: &Vec<char>, p: &str) -> (b: bool)
    ensures
        b == spec_prefix(s@, p@),
{
    let plen = p.unicode_len();
    if s.len() < plen {
        return false;
    }
    let mut i: usize = 0;
    while i < plen
        invariant
            i <= plen,
            plen == p@.len(),
            s@.len() >= plen,
            forall|j: int| 0 <= j < i ==> s@[j] == p@[j],
        decreases plen - i,
    {
        if s[i] != p.get_char(i) {
            return false;
        }
        i += 1;
    }
    true
}

/// Reads the digit run that starts at `k`, with its value capped at `bound`;
/// returns the run's end and, unless the value exceeds the bound, the value.
fn read_digit_run(s: &Vec<char>, k: usize, bound: u64) -> (r: (usize, Option<u64>))
    requires
        k <= s@.len(),
        bound <= 65535,
    ensures
        r.0 == digits_end(s@, k as int),
        k <= r.0 <= s@.len(),
        match r.1 {
            Some(v) => v as nat == run_val(s@.subrange(k as int, r.0 as int)) && v <= bound,
            None => run_val(s@.subrange(k as int, r.0 as int)) > bound,
        },
{
    let mut i: usize = k;
    let mut acc: u64 = 0;
    let mut over = false;
    proof {
        assert(s@.subrange(k as int, k as int).len() == 0);
    }
    while i < s.len() && check_digit(s[i])
        invariant
            k <= i <= s@.len(),
            bound <= 65535,
            digits_end(s@, k as int) == digits_end(s@, i as int),
            !over ==> acc as nat == run_val(s@.subrange(k as int, i as int)) && acc <= bound,
            over ==> run_val(s@.subrange(k as int, i as int)) > bound,
        decreases s@.len() - i,
    {
        let d: u64 = (s[i] as u32 - 48) as u64;
        proof {
            assert(s@.subrange(k as int, i as int + 1).drop_last() =~= s@.subrange(
                k as int,
                i as int,
            ));
            assert(s@.subrange(k as int, i as int + 1).last() == s@[i as int]);
            assert(digits_end(s@, i as int) == digits_end(s@, i as int + 1));
        }
        if over {
        } else {
            let next = acc * 10 + d;
            if next > bound {
                over = true;
            } else {
                acc = next;
            }
        }
        i += 1;
    }
    proof {
        assert(digits_end(s@, i as int) == i as int);
    }
    (i, if over {
        None
    } else {
        Some(acc)
    })
}

/// Parses `{kw}{digits})` at the start of `s`: no match, a match whose value
/// fits the bound, or a match whose value is out of range.
fn parse_paren_num(s: &Vec<char>, kw: &str, bound: u64) -> (r: Option<Option<u64>>)
    requires
        bound <= 65535,
    ensures
        ({
            match (r, spec_paren_num(s@, kw@)) {
                (Some(Some(v)), Some(n)) => v as nat == n && n <= bound as nat,
                (Some(None), Some(n)) => n > bound as nat,
                (None, None) => true,
                _ => false,
            }
        }),
{
    if !starts_with(s, kw) {
        return None;
    }
    let k = kw.unicode_len();
    let (de, val) = read_digit_run(s, k, bound);
    if de == k {
        return None;
    }
    if de < s.len() && s[de] == ')' {
        match val {
            Some(v) => Some(Some(v)),
            None => Some(None),
        }
    } else {
        None
    }
}

/// Parses `{kw}{digits},{digits})` at the start of `s`, as `parse_paren_num`
/// does for one number.
fn parse_decimal_nums(s: &Vec<char>, kw: &str, bound: u64) -> (r: Option<Option<(u64, u64)>>)
    requires
        bound <= 65535,
    ensures
        ({
            match (r, spec_decimal_nums(s@, kw@)) {
                (Some(Some(v)), Some(n)) => v.0 as nat == n.0 && v.1 as nat == n.1 && n.0
                    <= bound as nat && n.1 <= bound as nat,
                (Some(None), Some(n)) => n.0 > bound as nat || n.1 > bound as nat,
                (None, None) => true,
                _ => false,
            }
        }),
{
    if !starts_with(s, kw) {
        return None;
    }
    let k = kw.unicode_len();
    let (de, val1) = read_digit_run(s, k, bound);
    if de == k {
        return None;
    }
    if !(de < s.len() && s[de] == ',') {
        return None;
    }
    let (ee, val2) = read_digit_run(s, de + 1, bound);
    if ee == de + 1 {
        return None;
    }
    if ee < s.len() && s[ee] == ')' {
        match (val1, val2) {
            (Some(a), Some(b)) => Some(Some((a, b))),
            _ => Some(None),
        }
    } else {
        None
    }
}

impl AttributeType {
    /// Reads a column type from a raw type string, trying the patterns in a
    /// fixed order; a match whose size exceeds the width's range, and a
    /// string matching no pattern, yield `None`.
    pub fn from(raw_str: &str) -> (r: Option<AttributeType>)
        ensures
            r == spec_attr_type_of(raw_str@),
    {
        let s = str_to_chars(raw_str);
        match parse_paren_num(&s, "CHAR(", 255) {
            Some(Some(v)) => { return Some(AttributeType::Char(v as u8)) },
            Some(None) => { return None },
            None => {},
        }
        match parse_paren_num(&s, "VARCHAR(", 65535) {
            Some(Some(v)) => { return Some(AttributeType::VarChar(v as u16)) },
            Some(None) => { return None },
            None => {},
        }
        match parse_paren_num(&s, "BINARY(", 255) {
            Some(Some(v)) => { return Some(AttributeType::Binary(v as u8)) },
            Some(None) => { return None },
            None => {},
        }
        match parse_paren_num(&s, "VARBINARY(", 65535) {
            Some(Some(v)) => { return Some(AttributeType::VarBinary(v as u16)) },
            Some(None) => { return None },
            None => {},
        }
        if starts_with(&s, "TINYBLOB") {
            return Some(AttributeType::TinyBlob);
        }
        if starts_with(&s, "TINYTEXT") {
            return Some(AttributeType::TinyText);
        }
        match parse_paren_num(&s, "TEXT(", 65535) {
            Some(Some(v)) => { return Some(AttributeType::Text(v as u16)) },
            Some(None) => { return None },
            None => {},
        }
        match parse_paren_num(&s, "BLOB(", 65535) {
            Some(Some(v)) => { return Some(AttributeType::Blob(v as u16)) },
            Some(None) => { return None },
            None => {},
        }
        if starts_with(&s, "MEDIUMTEXT") {
            return Some(AttributeType::MediumText);
        }
        if starts_with(&s, "LONGTEXT") {
            return Some(AttributeType::LongText);
        }
        if starts_with(&s, "LONGBLOB") {
            return Some(AttributeType::LongBlob);
        }
        match parse_paren_num(&s, "BIT(", 255) {
            Some(Some(v)) => { return Some(AttributeType::Bit(v as u8)) },
            Some(None) => { return None },
            None => {},
        }
        match parse_paren_num(&s, "TINYINT(", 255) {
            Some(Some(v)) => { return Some(AttributeType::TinyInt(v as u8)) },
            Some(None) => { return None },
            None => {},
        }
        if starts_with(&s, "BOOL") {
            return Some(AttributeType::Bool);
        }
        if starts_with(&s, "BOOLEAN") {
            return Some(AttributeType::Boolean);
        }
        match parse_paren_num(&s, "SMALLINT(", 255) {
            Some(Some(v)) => { return Some(AttributeType::SmallInt(v as u8)) },
            Some(None) => { return None },
            None => {},
        }
        match parse_paren_num(&s, "MEDIUMINT(", 255) {
            Some(Some(v)) => { return Some(AttributeType::MediumInt(v as u8)) },
            Some(None) => { return None },
            None => {},
        }
        match parse_paren_num(&s, "INT(", 255) {
            Some(Some(v)) => { return Some(AttributeType::Int(v as u8)) },
            Some(None) => { return None },
            None => {},
        }
        match parse_paren_num(&s, "INTEGER(", 255) {
            Some(Some(v)) => { return Some(AttributeType::Int(v as u8)) },
            Some(None) => { return None },
            None => {},
        }
        match parse_paren_num(&s, "BigInt(", 255) {
            Some(Some(v)) => { return Some(AttributeType::BigInt(v as u8)) },
            Some(None) => { return None },
            None => {},
        }
        match parse_paren_num(&s, "FLOAT(", 255) {
            Some(Some(v)) => { return Some(AttributeType::Float(v as u8)) },
            Some(None) => { return None },
            None => {},
        }
        match parse_decimal_nums(&s, "DECIMAL(", 255) {
            Some(Some(p)) => { return Some(AttributeType::Decimal(p.0 as u8, p.1 as u8)) },
            Some(None) => { return None },
            None => {},
        }
        if starts_with(&s, "DATE") {
            return Some(AttributeType::Date);
        }
        if starts_with(&s, "DATETIME") {
            return Some(AttributeType::DateTime);
        }
        if starts_with(&s, "TIMESTAMP") {
            return Some(AttributeType::TimeStamp);
        }
        if starts_with(&s, "TIME") {
            return Some(AttributeType::Time);
        }
        if starts_with(&s, "YEAR") {
            return Some(AttributeType::Year);
        }
        None
    }
}

/// Whether the constraint list holds a NotNull.
pub open spec fn spec_has_not_null(cs: Seq<Constraint>) -> bool {
    exists|i: int| 0 <= i < cs.len() && cs[i] is NotNull
}

/// Whether the constraint list holds a Unique.
pub open spec fn spec_has_unique(cs: Seq<Constraint>) -> bool {
    exists|i: int| 0 <= i < cs.len() && cs[i] is Unique
}

/// Whether the constraint list holds an AutoIncrement.
pub open spec fn spec_has_auto_increment(cs: Seq<Constraint>) -> bool {
    exists|i: int| 0 <= i < cs.len() && cs[i] is AutoIncrement
}

/// The referenced table and attribute of the first foreign key in the list.
pub open spec fn spec_first_fk(cs: Seq<Constraint>) -> Option<(Seq<char>, Seq<char>)>
    decreases cs.len(),
{
    if cs.len() == 0 {
        None
    } else {
        match cs[0] {
            Constraint::ForeignKey { table_name, attribute_name } => Some(
                (table_name@, attribute_name@),
            ),
            _ => spec_first_fk(cs.drop_first()),
        }
    }
}

fn has_not_null(cs: &Vec<Constraint>) -> (b: bool)
    ensures
        b == spec_has_not_null(cs@),
{
    let mut i: usize = 0;
    while i < cs.len()
        invariant
            i <= cs.len(),
            forall|j: int| 0 <= j < i ==> !(cs@[j] is NotNull),
        decreases cs.len() - i,
    {
        if let Constraint::NotNull = &cs[i] {
            return true;
        }
        i += 1;
    }
    false
}

fn has_unique(cs: &Vec<Constraint>) -> (b: bool)
    ensures
        b == spec_has_unique(cs@),
{
    let mut i: usize = 0;
    while i < cs.len()
        invariant
            i <= cs.len(),
            forall|j: int| 0 <= j < i ==> !(cs@[j] is Unique),
        decreases cs.len() - i,
    {
        if let Constraint::Unique = &cs[i] {
            return true;
        }
        i += 1;
    }
    false
}

fn has_auto_increment(cs: &Vec<Constraint>) -> (b: bool)
    ensures
        b == spec_has_auto_increment(cs@),
{
    let mut i: usize = 0;
    while i < cs.len()
        invariant
            i <= cs.len(),
            forall|j: int| 0 <= j < i ==> !(cs@[j] is AutoIncrement),
        decreases cs.len() - i,
    {
        if let Constraint::AutoIncrement = &cs[i] {
            return true;
        }
        i += 1;
    }
    false
}

/// Finds the first foreign key constraint in the list, if any.
fn first_fk(cs: &Vec<Constraint>) -> (r: Option<(String, String)>)
    ensures
        match r {
            Some(p) => spec_first_fk(cs@) == Some((p.0@, p.1@)),
            None => spec_first_fk(cs@) is None,
        },
{
    let mut i: usize = 0;
    proof {
        assert(cs@.skip(0) =~= cs@);
    }
    while i < cs.len()
        invariant
            i <= cs.len(),
            spec_first_fk(cs@) == spec_first_fk(cs@.skip(i as int)),
        decreases cs.len() - i,
    {
        proof {
            assert(cs@.skip(i as int).drop_first() =~= cs@.skip(i as int + 1));
            assert(cs@.skip(i as int)[0] == cs@[i as int]);
        }
        match &cs[i] {
            Constraint::ForeignKey { table_name, attribute_name } => {
                return Some((table_name.clone(), attribute_name.clone()));
            },
            _ => {},
        }
        i += 1;
    }
    proof {
        assert(cs@.skip(cs@.len() as int).len() == 0);
    }
    None
}

/// A column of a table: a name, a type, and a set of constraints, each
/// constraint present at most once per variant.
#[derive(Debug, Clone)]
pub struct Attribute {
    pub name: String,
    pub data_type: AttributeType,
    pub constraint: Vec<Constraint>,
}

/// The constraint words of an attribute's rendering, in the fixed order
/// Unique, Not Null, Auto Increment; the foreign key is rendered separately.
pub open spec fn spec_constraint_words(cs: Seq<Constraint>) -> Seq<Seq<char>> {
    let u: Seq<Seq<char>> = if spec_has_unique(cs) {
        seq!["Unique"@]
    } else {
        Seq::empty()
    };
    let n: Seq<Seq<char>> = if spec_has_not_null(cs) {
        seq!["Not Null"@]
    } else {
        Seq::empty()
    };
    let a: Seq<Seq<char>> = if spec_has_auto_increment(cs) {
        seq!["Auto Increment"@]
    } else {
        Seq::empty()
    };
    u + n + a
}

/// An attribute's rendering inside a CREATE statement: name, type, the
/// constraint words, and a trailing FOREIGN KEY clause when one is present.
pub open spec fn spec_attr_str(a: Attribute) -> Seq<char> {
    let words = spec_constraint_words(a.constraint@);
    let base = if words.len() == 0 {
        a.name@ + " "@ + spec_type_str(a.data_type)
    } else {
        a.name@ + " "@ + spec_type_str(a.data_type) + " "@ + spec_join(words, " "@)
    };
    match spec_first_fk(a.constraint@) {
        Some(p) => base + ", FOREIGN KEY("@ + a.name@ + ") REFERENCES "@ + p.0 + "("@ + p.1 + ")"@,
        None => base,
    }
}

impl Attribute {
    /// The short schema listing of the attribute: name and type.
    pub fn schema_fmt(&self) -> (r: String)
        ensures
            r@ == self.name@ + " "@ + spec_type_str(self.data_type),
    {
        let mut s = self.name.clone();
        s.append(" ");
        let t = self.data_type.type_str();
        s.append(t.as_str());
        s
    }

    /// The attribute's full rendering inside a CREATE statement.
    pub fn attr_str(&self) -> (r: String)
        ensures
            r@ == spec_attr_str(*self),
    {
        let mut words: Vec<String> = Vec::new();
        if has_unique(&self.constraint) {
            words.push(Self::word("Unique"));
        }
        if has_not_null(&self.constraint) {
            words.push(Self::word("Not Null"));
        }
        if has_auto_increment(&self.constraint) {
            words.push(Self::word("Auto Increment"));
        }
        proof {
            assert(views_of(words@) =~= spec_constraint_words(self.constraint@));
        }
        let mut s = self.schema_fmt();
        if words.len() > 0 {
            s.append(" ");
            let joined = join_strings(&words, " ");
            s.append(joined.as_str());
        }
        match first_fk(&self.constraint) {
            Some(p) => {
                s.append(", FOREIGN KEY(");
                s.append(self.name.as_str());
                s.append(") REFERENCES ");
                s.append(p.0.as_str());
                s.append("(");
                s.append(p.1.as_str());
                s.append(")");
            },
            None => {},
        }
        s
    }

    /// An owned copy of a word literal.
    fn word(w: &str) -> (r: String)
        ensures
            r@ == w@,
    {
        w.to_owned()
    }
}

/// A table: a name, an ordered list of attributes, and an optional primary
/// key given as an index into the attribute list.
#[derive(Debug, Clone)]
pub struct Table {
    pub name: String,
    pub attributes: Vec<Attribute>,
    pub primary_key: Option<usize>,
}

/// The renderings of a list of attributes.
pub open spec fn spec_attr_strs(attrs: Seq<Attribute>) -> Seq<Seq<char>> {
    attrs.map_values(|a: Attribute| spec_attr_str(a))
}

/// The CREATE statement of a table: the attributes joined with commas, and
/// the primary key clause when one is set.
pub open spec fn spec_table_str(t: Table) -> Seq<char> {
    let attrs = spec_join(spec_attr_strs(t.attributes@), ","@);
    match t.primary_key {
        Some(i) => "CREATE TABLE "@ + t.name@ + " ("@ + attrs + ", PRIMARY KEY("@
            + t.attributes@[i as int].name@ + "))"@,
        None => "CREATE TABLE "@ + t.name@ + " ("@ + attrs + ")"@,
    }
}

/// A text that starts with `CREATE` and a space and goes on classifies as a
/// CREATE statement.
proof fn lemma_create_classifies(s: Seq<char>)
    requires
        s.len() >= 8,
        spec_prefix(s, "CREATE "@),
    ensures
        kind_of(s) == Some(StatementKind::Create),
{
    reveal_strlit("CREATE ");
    assert(s[0] == 'C' && s[1] == 'R' && s[2] == 'E' && s[3] == 'A' && s[4] == 'T' && s[5] == 'E'
        && s[6] == ' ');
    assert(crate::text::lower_char('C') == 'c');
    assert(crate::text::lower_char('R') == 'r');
    assert(crate::text::lower_char('E') == 'e');
    assert(crate::text::lower_char('A') == 'a');
    assert(crate::text::lower_char('T') == 't');
    assert(crate::sql::starts_with_keyword(
        s,
        crate::sql::kind_keyword(StatementKind::Create),
    ));
}

/// The pairs of a key lookup list: the value stored under the key, taking
/// the first match.
pub open spec fn spec_lookup(vals: Seq<(String, String)>, key: Seq<char>) -> Option<Seq<char>>
    decreases vals.len(),
{
    if vals.len() == 0 {
        None
    } else if vals[0].0@ == key {
        Some(vals[0].1@)
    } else {
        spec_lookup(vals.drop_first(), key)
    }
}

/// The attributes that the value list covers, in attribute order, each with
/// its value.
pub open spec fn spec_insert_pairs(attrs: Seq<Attribute>, vals: Seq<(String, String)>) -> Seq<
    (Seq<char>, Seq<char>),
>
    decreases attrs.len(),
{
    if attrs.len() == 0 {
        Seq::empty()
    } else {
        let rest = spec_insert_pairs(attrs.drop_first(), vals);
        match spec_lookup(vals, attrs[0].name@) {
            Some(v) => seq![(attrs[0].name@, v)] + rest,
            None => rest,
        }
    }
}

/// The INSERT statement for a table and a value list: `None` when no
/// attribute is covered by the values.
pub open spec fn spec_insert_stmt(t: Table, vals: Seq<(String, String)>) -> Option<Seq<char>> {
    let pairs = spec_insert_pairs(t.attributes@, vals);
    if pairs.len() == 0 {
        None
    } else {
        Some(
            "INSERT INTO "@ + t.name@ + "("@ + spec_join(
                pairs.map_values(|p: (Seq<char>, Seq<char>)| p.0),
                ","@,
            ) + ") VALUES ("@ + spec_join(pairs.map_values(|p: (Seq<char>, Seq<char>)| p.1), ","@)
                + ")"@,
        )
    }
}

/// The foreign keys of an attribute list: for each attribute holding a
/// foreign key, the referenced table and attribute of its first one.
pub open spec fn spec_fk_list(attrs: Seq<Attribute>) -> Seq<(Seq<char>, Seq<char>)>
    decreases attrs.len(),
{
    if attrs.len() == 0 {
        Seq::empty()
    } else {
        let rest = spec_fk_list(attrs.drop_first());
        match spec_first_fk(attrs[0].constraint@) {
            Some(p) => seq![p] + rest,
            None => rest,
        }
    }
}

/// Appending one attribute appends its foreign key, if it has one.
proof fn lemma_fk_list_snoc(attrs: Seq<Attribute>, a: Attribute)
    ensures
        spec_fk_list(attrs.push(a)) == spec_fk_list(attrs) + (match spec_first_fk(a.constraint@) {
            Some(p) => seq![p],
            None => Seq::<(Seq<char>, Seq<char>)>::empty(),
        }),
    decreases attrs.len(),
{
    if attrs.len() == 0 {
        assert(attrs.push(a)[0] == a);
        assert(attrs.push(a).drop_first() =~= attrs);
        assert(spec_fk_list(attrs) + spec_fk_list(attrs.push(a)) =~= spec_fk_list(attrs.push(a)));
        match spec_first_fk(a.constraint@) {
            Some(p) => {
                assert(spec_fk_list(attrs.push(a)) =~= spec_fk_list(attrs) + seq![p]);
            },
            None => {
                assert(spec_fk_list(attrs.push(a)) =~= spec_fk_list(attrs) + Seq::<
                    (Seq<char>, Seq<char>),
                >::empty());
            },
        }
    } else {
        assert(attrs.push(a)[0] == attrs[0]);
        assert(attrs.push(a).drop_first() =~= attrs.drop_first().push(a));
        lemma_fk_list_snoc(attrs.drop_first(), a);
        match spec_first_fk(attrs[0].constraint@) {
            Some(q) => {
                assert(seq![q] + (spec_fk_list(attrs.drop_first()) + (match spec_first_fk(
                    a.constraint@,
                ) {
                    Some(p) => seq![p],
                    None => Seq::<(Seq<char>, Seq<char>)>::empty(),
                })) =~= (seq![q] + spec_fk_list(attrs.drop_first())) + (match spec_first_fk(
                    a.constraint@,
                ) {
                    Some(p) => seq![p],
                    None => Seq::<(Seq<char>, Seq<char>)>::empty(),
                }));
            },
            None => {},
        }
    }
}

/// Appending one attribute appends its pair, if the values cover it.
proof fn lemma_insert_pairs_snoc(attrs: Seq<Attribute>, a: Attribute, vals: Seq<(String, String)>)
    ensures
        spec_insert_pairs(attrs.push(a), vals) == spec_insert_pairs(attrs, vals) + (
        match spec_lookup(vals, a.name@) {
            Some(v) => seq![(a.name@, v)],
            None => Seq::<(Seq<char>, Seq<char>)>::empty(),
        }),
    decreases attrs.len(),
{
    if attrs.len() == 0 {
        assert(attrs.push(a)[0] == a);
        assert(attrs.push(a).drop_first() =~= attrs);
        match spec_lookup(vals, a.name@) {
            Some(v) => {
                assert(spec_insert_pairs(attrs.push(a), vals) =~= spec_insert_pairs(attrs, vals)
                    + seq![(a.name@, v)]);
            },
            None => {
                assert(spec_insert_pairs(attrs.push(a), vals) =~= spec_insert_pairs(attrs, vals)
                    + Seq::<(Seq<char>, Seq<char>)>::empty());
            },
        }
    } else {
        assert(attrs.push(a)[0] == attrs[0]);
        assert(attrs.push(a).drop_first() =~= attrs.drop_first().push(a));
        lemma_insert_pairs_snoc(attrs.drop_first(), a, vals);
        let tail = (match spec_lookup(vals, a.name@) {
            Some(v) => seq![(a.name@, v)],
            None => Seq::<(Seq<char>, Seq<char>)>::empty(),
        });
        match spec_lookup(vals, attrs[0].name@) {
            Some(w) => {
                assert(seq![(attrs[0].name@, w)] + (spec_insert_pairs(attrs.drop_first(), vals)
                    + tail) =~= (seq![(attrs[0].name@, w)] + spec_insert_pairs(
                    attrs.drop_first(),
                    vals,
                )) + tail);
            },
            None => {},
        }
    }
}

/// Looks a key up in a value list, taking the first match.
fn lookup(vals: &Vec<(String, String)>, key: &String) -> (r: Option<String>)
    ensures
        match r {
            Some(v) => spec_lookup(vals@, key@) == Some(v@),
            None => spec_lookup(vals@, key@) is None,
        },
{
    let mut i: usize = 0;
    proof {
        assert(vals@.skip(0) =~= vals@);
    }
    while i < vals.len()
        invariant
            i <= vals.len(),
            spec_lookup(vals@, key@) == spec_lookup(vals@.skip(i as int), key@),
        decreases vals.len() - i,
    {
        proof {
            assert(vals@.skip(i as int).drop_first() =~= vals@.skip(i as int + 1));
            assert(vals@.skip(i as int)[0] == vals@[i as int]);
        }
        if vals[i].0 == *key {
            return Some(vals[i].1.clone());
        }
        i += 1;
    }
    None
}

impl Table {
    /// A table is well formed when its primary key, if set, is a valid index
    /// into the attribute list.
    pub open spec fn wf(&self) -> bool {
        match self.primary_key {
            Some(i) => i < self.attributes.len(),
            None => true,
        }
    }

    /// Renders the table's CREATE statement.
    pub fn to_string(&self) -> (r: String)
        requires
            self.wf(),
        ensures
            r@ == spec_table_str(*self),
    {
        let mut parts: Vec<String> = Vec::new();
        let mut i: usize = 0;
        while i < self.attributes.len()
            invariant
                i <= self.attributes.len(),
                parts@.len() == i,
                forall|j: int|
                    0 <= j < i ==> #[trigger] parts@[j]@ == spec_attr_str(self.attributes@[j]),
            decreases self.attributes.len() - i,
        {
            parts.push(self.attributes[i].attr_str());
            i += 1;
        }
        proof {
            assert(views_of(parts@) =~= spec_attr_strs(self.attributes@));
        }
        let attrs = join_strings(&parts, ",");
        let mut s = String::new();
        s.append("CREATE TABLE ");
        s.append(self.name.as_str());
        s.append(" (");
        s.append(attrs.as_str());
        match self.primary_key {
            Some(idx) => {
                s.append(", PRIMARY KEY(");
                s.append(self.attributes[idx].name.as_str());
                s.append("))");
            },
            None => {
                s.append(")");
            },
        }
        s
    }

    /// The CREATE statement, checked to classify as a CREATE.
    pub fn create(&self) -> (r: DDL)
        requires
            self.wf(),
        ensures
            r.0@ == spec_table_str(*self),
            kind_of(r.0@) == Some(StatementKind::Create),
    {
        let s = self.to_string();
        proof {
            reveal_strlit("CREATE TABLE ");
            reveal_strlit("CREATE ");
            lemma_create_classifies(s@);
        }
        DDL(s)
    }

    /// The CREATE statement, built without the classification check.
    pub fn create_unchecked(&self) -> (r: DDL)
        requires
            self.wf(),
        ensures
            r.0@ == spec_table_str(*self),
    {
        DDL(self.to_string())
    }

    /// The DROP statement for this table.
    pub fn drop(&self) -> (r: DDL)
        ensures
            r.0@ == "DROP TABLE "@ + self.name@,
    {
        let mut s = String::new();
        s.append("DROP TABLE ");
        s.append(self.name.as_str());
        DDL(s)
    }

    /// The SELECT statement reading every row of this table.
    pub fn select(&self) -> (r: QDL)
        ensures
            r.0@ == "SELECT * FROM "@ + self.name@,
    {
        let mut s = String::new();
        s.append("SELECT * FROM ");
        s.append(self.name.as_str());
        QDL(s)
    }

    /// The referenced table and attribute of each attribute that carries a
    /// foreign key; `None` when no attribute does.
    pub fn get_foreign_keys(&self) -> (r: Option<Vec<(String, String)>>)
        ensures
            match r {
                Some(v) => v@.map_values(|p: (String, String)| (p.0@, p.1@)) == spec_fk_list(
                    self.attributes@,
                ) && v@.len() > 0,
                None => spec_fk_list(self.attributes@).len() == 0,
            },
    {
        let mut found: Vec<(String, String)> = Vec::new();
        let mut i: usize = 0;
        while i < self.attributes.len()
            invariant
                i <= self.attributes.len(),
                found@.map_values(|p: (String, String)| (p.0@, p.1@)) == spec_fk_list(
                    self.attributes@.take(i as int),
                ),
            decreases self.attributes.len() - i,
        {
            proof {
                lemma_fk_list_snoc(
                    self.attributes@.take(i as int),
                    self.attributes@[i as int],
                );
                assert(self.attributes@.take(i as int + 1) =~= self.attributes@.take(
                    i as int,
                ).push(self.attributes@[i as int]));
            }
            let ghost prev = found@;
            match first_fk(&self.attributes[i].constraint) {
                Some(p) => {
                    let ghost pv = (p.0@, p.1@);
                    found.push(p);
                    proof {
                        assert(found@.map_values(|q: (String, String)| (q.0@, q.1@)) =~= prev
                            .map_values(|q: (String, String)| (q.0@, q.1@)).push(pv));
                        assert(spec_fk_list(self.attributes@.take(i as int)) + seq![pv]
                            =~= spec_fk_list(self.attributes@.take(i as int)).push(pv));
                    }
                },
                None => {
                    proof {
                        assert(spec_fk_list(self.attributes@.take(i as int)) + Seq::<
                            (Seq<char>, Seq<char>),
                        >::empty() =~= spec_fk_list(self.attributes@.take(i as int)));
                    }
                },
            }
            i += 1;
        }
        proof {
            assert(self.attributes@.take(self.attributes@.len() as int) =~= self.attributes@);
        }
        if found.len() == 0 {
            None
        } else {
            Some(found)
        }
    }

    /// The INSERT statement filling the attributes that the value list
    /// covers; `None` when it covers none.
    pub fn insert(&self, values: &Vec<(String, String)>) -> (r: Option<QML>)
        ensures
            match r {
                Some(q) => spec_insert_stmt(*self, values@) == Some(q.0@),
                None => spec_insert_stmt(*self, values@) is None,
            },
    {
        let mut cols: Vec<String> = Vec::new();
        let mut vals: Vec<String> = Vec::new();
        let mut i: usize = 0;
        while i < self.attributes.len()
            invariant
                i <= self.attributes.len(),
                views_of(cols@) == spec_insert_pairs(self.attributes@.take(i as int), values@)
                    .map_values(|p: (Seq<char>, Seq<char>)| p.0),
                views_of(vals@) == spec_insert_pairs(self.attributes@.take(i as int), values@)
                    .map_values(|p: (Seq<char>, Seq<char>)| p.1),
            decreases self.attributes.len() - i,
        {
            proof {
                lemma_insert_pairs_snoc(
                    self.attributes@.take(i as int),
                    self.attributes@[i as int],
                    values@,
                );
                assert(self.attributes@.take(i as int + 1) =~= self.attributes@.take(
                    i as int,
                ).push(self.attributes@[i as int]));
            }
            let ghost pc = cols@;
            let ghost pv = vals@;
            let ghost pairs = spec_insert_pairs(self.attributes@.take(i as int), values@);
            match lookup(values, &self.attributes[i].name) {
                Some(v) => {
                    let ghost pair = (self.attributes@[i as int].name@, v@);
                    cols.push(self.attributes[i].name.clone());
                    vals.push(v);
                    proof {
                        assert(views_of(cols@) =~= views_of(pc).push(pair.0));
                        assert(views_of(vals@) =~= views_of(pv).push(pair.1));
                        assert((pairs + seq![pair]).map_values(
                            |p: (Seq<char>, Seq<char>)| p.0,
                        ) =~= pairs.map_values(|p: (Seq<char>, Seq<char>)| p.0).push(pair.0));
                        assert((pairs + seq![pair]).map_values(
                            |p: (Seq<char>, Seq<char>)| p.1,
                        ) =~= pairs.map_values(|p: (Seq<char>, Seq<char>)| p.1).push(pair.1));
                    }
                },
                None => {
                    proof {
                        assert(pairs + Seq::<(Seq<char>, Seq<char>)>::empty() =~= pairs);
                    }
                },
            }
            i += 1;
        }
        proof {
            assert(self.attributes@.take(self.attributes@.len() as int) =~= self.attributes@);
        }
        if cols.len() == 0 {
            return None;
        }
        let colstr = join_strings(&cols, ",");
        let valstr = join_strings(&vals, ",");
        let mut s = String::new();
        s.append("INSERT INTO ");
        s.append(self.name.as_str());
        s.append("(");
        s.append(colstr.as_str());
        s.append(") VALUES (");
        s.append(valstr.as_str());
        s.append(")");
        Some(QML(s))
    }
}

/// A view: a name and the data-query statement that defines it.
#[derive(Debug, Clone)]
pub struct View {
    pub name: String,
    pub query: QDL,
}

impl View {
    /// A view with the given name and defining query.
    pub fn new(name: &str, query: QDL) -> (r: View)
        ensures
            r.name@ == name@,
            r.query.0@ == query.0@,
    {
        View { name: name.to_owned(), query }
    }

    /// The SELECT statement reading every row of this view.
    pub fn select(&self) -> (r: QDL)
        ensures
            r.0@ == "SELECT * FROM "@ + self.name@,
    {
        let mut s = String::new();
        s.append("SELECT * FROM ");
        s.append(self.name.as_str());
        QDL(s)
    }

    /// The DROP statement for this view.
    pub fn drop(&self) -> (r: DDL)
        ensures
            r.0@ == "DROP VIEW "@ + self.name@,
    {
        let mut s = String::new();
        s.append("DROP VIEW ");
        s.append(self.name.as_str());
        DDL(s)
    }

    /// The CREATE statement for this view, checked to classify as a CREATE.
    pub fn create(&self) -> (r: DDL)
        ensures
            r.0@ == "CREATE VIEW "@ + self.name@ + " AS "@ + self.query.0@,
            kind_of(r.0@) == Some(StatementKind::Create),
    {
        let mut s = String::new();
        s.append("CREATE VIEW ");
        s.append(self.name.as_str());
        s.append(" AS ");
        s.append(self.query.0.as_str());
        proof {
            reveal_strlit("CREATE VIEW ");
            reveal_strlit("CREATE ");
            lemma_create_classifies(s@);
        }
        DDL(s)
    }
}

/// Statement builders shared by every kind of relation.
pub trait RelationMethods {
    /// The text of the SELECT statement reading the relation.
    spec fn spec_select(&self) -> Seq<char>;

    /// The text of the DROP statement removing the relation.
    spec fn spec_drop(&self) -> Seq<char>;

    /// The text of the CREATE statement rebuilding the relation.
    spec fn spec_create(&self) -> Seq<char>;

    /// Whether the relation is well formed enough to render.
    spec fn spec_wf(&self) -> bool;

    /// The SELECT statement reading the relation.
    fn select(&self) -> (r: QDL)
        requires
            self.spec_wf(),
        ensures
            r.0@ == self.spec_select(),
    ;

    /// The DROP statement removing the relation.
    fn drop(&self) -> (r: DDL)
        requires
            self.spec_wf(),
        ensures
            r.0@ == self.spec_drop(),
    ;

    /// The CREATE statement rebuilding the relation; it always classifies as
    /// a CREATE.
    fn create(&self) -> (r: DDL)
        requires
            self.spec_wf(),
        ensures
            r.0@ == self.spec_create(),
            kind_of(r.0@) == Some(StatementKind::Create),
    ;
}

/// A relation of the schema: a table or a view.
#[derive(Debug, Clone)]
pub enum Relation {
    Table(Table),
    View(View),
}

impl Relation {
    /// The relation's name.
    pub open spec fn spec_name(&self) -> Seq<char> {
        match self {
            Relation::Table(t) => t.name@,
            Relation::View(v) => v.name@,
        }
    }

    /// A relation is well formed when its table part, if any, is.
    pub open spec fn wf(&self) -> bool {
        match self {
            Relation::Table(t) => t.wf(),
            Relation::View(_) => true,
        }
    }

    /// The relation's name.
    pub fn name(&self) -> (r: String)
        ensures
            r@ == self.spec_name(),
    {
        match self {
            Relation::Table(t) => t.name.clone(),
            Relation::View(v) => v.name.clone(),
        }
    }
}

impl RelationMethods for Relation {
    open spec fn spec_select(&self) -> Seq<char> {
        "SELECT * FROM "@ + self.spec_name()
    }

    open spec fn spec_drop(&self) -> Seq<char> {
        match self {
            Relation::Table(t) => "DROP TABLE "@ + t.name@,
            Relation::View(v) => "DROP VIEW "@ + v.name@,
        }
    }

    open spec fn spec_create(&self) -> Seq<char> {
        match self {
            Relation::Table(t) => spec_table_str(*t),
            Relation::View(v) => "CREATE VIEW "@ + v.name@ + " AS "@ + v.query.0@,
        }
    }

    open spec fn spec_wf(&self) -> bool {
        self.wf()
    }

    fn select(&self) -> (r: QDL) {
        match self {
            Relation::Table(t) => t.select(),
            Relation::View(v) => v.select(),
        }
    }

    fn drop(&self) -> (r: DDL) {
        match self {
            Relation::Table(t) => t.drop(),
            Relation::View(v) => v.drop(),
        }
    }

    fn create(&self) -> (r: DDL) {
        match self {
            Relation::Table(t) => t.create(),
            Relation::View(v) => v.create(),
        }
    }
}

} // verus!
