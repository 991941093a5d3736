//! The protocol-description scanner: a state machine over XML events
//! that builds the in-memory protocol model.
//!
//! The caller tokenizes the XML document (a file read at build time)
//! and feeds one plain event at a time; the machine tracks where in
//! the grammar it stands — protocol, interface, request/event,
//! enum — and accumulates the model. Where the document leaves the
//! grammar, it reports an error instead of a model.

use vstd::prelude::*;
use vstd::string::StringSliceAdditionalSpecFns;
use vstd::string::StrSliceExecFns;

verus! {

/// One tokenized XML event, as plain values: a start tag, an end tag,
/// a self-closing (empty) tag — each with its name and attributes —
/// or the end of the document.
pub enum XmlEvent {
    Start { name: Vec<u8>, attrs: Vec<(Vec<u8>, Vec<u8>)> },
    End { name: Vec<u8> },
    Empty { name: Vec<u8>, attrs: Vec<(Vec<u8>, Vec<u8>)> },
    Eof,
}

/// Where the scanned document left its grammar.
#[derive(Debug, Clone, Copy, PartialEq, Eq, Structural)]
pub enum ScanError {
    /// A tag that the grammar does not allow here.
    UnexpectedTag,
    /// A required attribute is absent.
    MissingAttribute,
    /// An attribute value that does not parse.
    InvalidValue,
    /// The document ended before the protocol was closed.
    UnexpectedEof,
}

/// The wire type named by an `<arg type=...>` attribute.
pub enum ValueType {
    I32,
    U32,
    Enum { interface: Vec<u8>, name: Vec<u8> },
    Fixed,
    ObjectId { interface: Option<Vec<u8>>, optional: bool },
    Str { optional: bool },
    Array { optional: bool },
    Fd,
}

/// One argument of a request or event.
pub struct Argument {
    pub name: Vec<u8>,
    pub value_type: ValueType,
}

/// One request or event: its name and arguments.
pub struct Callable {
    pub name: Vec<u8>,
    pub args: Vec<Argument>,
}

/// One protocol enum: its name and `(entry name, value)` pairs.
pub struct EnumDef {
    pub name: Vec<u8>,
    pub entries: Vec<(Vec<u8>, u32)>,
}

/// One interface: name, version, and its requests, events and enums.
pub struct InterfaceDef {
    pub name: Vec<u8>,
    pub version: u32,
    pub requests: Vec<Callable>,
    pub events: Vec<Callable>,
    pub enums: Vec<EnumDef>,
}

/// A whole protocol document.
pub struct Protocol {
    pub name: Vec<u8>,
    pub interfaces: Vec<InterfaceDef>,
}

/// Whether every byte of `s` is an ASCII decimal digit.
pub open spec fn spec_all_dec(s: Seq<u8>) -> bool {
    forall|i: int| 0 <= i < s.len() ==> 48 <= #[trigger] s[i] <= 57
}

/// The value of a decimal digit string, as unbounded arithmetic.
pub open spec fn spec_dec_val(s: Seq<u8>) -> int
    decreases s.len(),
{
    if s.len() == 0 {
        0
    } else {
        spec_dec_val(s.drop_last()) * 10 + (s.last() - 48)
    }
}

/// The value of a hexadecimal digit, or none.
pub open spec fn spec_hex_digit(b: u8) -> Option<int> {
    if 48 <= b <= 57 {
        Some((b - 48) as int)
    } else if 97 <= b <= 102 {
        Some((b - 97 + 10) as int)
    } else if 65 <= b <= 70 {
        Some((b - 65 + 10) as int)
    } else {
        None
    }
}

/// Whether every byte of `s` is a hexadecimal digit.
pub open spec fn spec_all_hex(s: Seq<u8>) -> bool {
    forall|i: int| 0 <= i < s.len() ==> (#[trigger] spec_hex_digit(s[i])) is Some
}

/// The value of a hexadecimal digit string.
pub open spec fn spec_hex_val(s: Seq<u8>) -> int
    decreases s.len(),
{
    if s.len() == 0 {
        0
    } else {
        spec_hex_val(s.drop_last()) * 16 + (match spec_hex_digit(s.last()) {
            Some(d) => d,
            None => 0,
        })
    }
}

/// Parse a decimal number.
///
/// Some exactly for a nonempty all-digit string whose value fits `u32`.
pub fn parse_u32_dec(s: &Vec<u8>) -> (r: Option<u32>)
    ensures
        match r {
            Some(v) => s@.len() > 0 && spec_all_dec(s@) && v == spec_dec_val(s@),
            None => s@.len() == 0 || !spec_all_dec(s@) || spec_dec_val(s@) > u32::MAX,
        },
{
    if s.len() == 0 {
        return None;
    }
    let n = s.len();
    let mut val: u64 = 0;
    let mut i: usize = 0;
    while i < n
        invariant
            i <= n,
            n == s@.len(),
            spec_all_dec(s@.take(i as int)),
            val == spec_dec_val(s@.take(i as int)),
            val <= u32::MAX,
        decreases n - i,
    {
        let b = s[i];
        if b < 48 || b > 57 {
            proof {
                assert(!spec_all_dec(s@));
            }
            return None;
        }
        let d = (b - 48) as u64;
        let next = val * 10 + d;
        proof {
            assert(s@.take(i + 1 as int).drop_last() =~= s@.take(i as int));
            assert(s@.take(i + 1 as int).last() == s@[i as int]);
        }
        if next > 0xFFFF_FFFF {
            proof {
                assert(spec_all_dec(s@.take(i + 1 as int)));
                if spec_all_dec(s@) {
                    lemma_dec_val_monotone(s@, i + 1 as int);
                    assert(spec_dec_val(s@) >= spec_dec_val(s@.take(i + 1 as int)));
                }
            }
            return None;
        }
        val = next;
        proof {
            assert(spec_all_dec(s@.take(i + 1 as int)));
        }
        i = i + 1;
    }
    proof {
        assert(s@.take(n as int) =~= s@);
    }
    Some(val as u32)
}

/// A digit string's value only grows with more digits.
proof fn lemma_dec_val_monotone(s: Seq<u8>, k: int)
    requires
        0 <= k <= s.len(),
        spec_all_dec(s),
    ensures
        spec_dec_val(s) >= spec_dec_val(s.take(k)),
    decreases s.len() - k,
{
    if k < s.len() {
        lemma_dec_val_monotone(s, k + 1);
        assert(s.take(k + 1).drop_last() =~= s.take(k));
        assert(s.take(k + 1).last() == s[k]);
        assert(spec_dec_val(s.take(k + 1)) == spec_dec_val(s.take(k)) * 10 + (s[k] - 48));
        assert(spec_dec_val(s.take(k)) >= 0) by {
            lemma_dec_val_nonneg(s.take(k));
        }
        assert(spec_dec_val(s.take(k + 1)) >= spec_dec_val(s.take(k))) by (nonlinear_arith)
            requires
                spec_dec_val(s.take(k + 1)) == spec_dec_val(s.take(k)) * 10 + (s[k] - 48),
                spec_dec_val(s.take(k)) >= 0,
                48 <= s[k] <= 57,
        ;
    } else {
        assert(s.take(k) =~= s);
    }
}

/// A digit string's value is never negative.
proof fn lemma_dec_val_nonneg(s: Seq<u8>)
    requires
        spec_all_dec(s),
    ensures
        spec_dec_val(s) >= 0,
    decreases s.len(),
{
    if s.len() > 0 {
        assert(spec_all_dec(s.drop_last()));
        lemma_dec_val_nonneg(s.drop_last());
        assert(spec_dec_val(s) == spec_dec_val(s.drop_last()) * 10 + (s.last() - 48));
        assert(spec_dec_val(s.drop_last()) * 10 >= 0) by (nonlinear_arith)
            requires
                spec_dec_val(s.drop_last()) >= 0,
        ;
    }
}

/// Parse a hexadecimal number (without a prefix).
///
/// Some exactly for a nonempty all-hex string whose value fits `u32`.
pub fn parse_u32_hex(s: &Vec<u8>) -> (r: Option<u32>)
    ensures
        match r {
            Some(v) => s@.len() > 0 && spec_all_hex(s@) && v == spec_hex_val(s@),
            None => s@.len() == 0 || !spec_all_hex(s@) || spec_hex_val(s@) > u32::MAX,
        },
{
    if s.len() == 0 {
        return None;
    }
    let n = s.len();
    let mut val: u64 = 0;
    let mut i: usize = 0;
    while i < n
        invariant
            i <= n,
            n == s@.len(),
            spec_all_hex(s@.take(i as int)),
            val == spec_hex_val(s@.take(i as int)),
            val <= u32::MAX,
        decreases n - i,
    {
        let b = s[i];
        let d: u64;
        if 48 <= b && b <= 57 {
            d = (b - 48) as u64;
        } else if 97 <= b && b <= 102 {
            d = (b - 97 + 10) as u64;
        } else if 65 <= b && b <= 70 {
            d = (b - 65 + 10) as u64;
        } else {
            proof {
                assert(spec_hex_digit(s@[i as int]) is None);
                assert(!spec_all_hex(s@));
            }
            return None;
        }
        let next = val * 16 + d;
        proof {
            assert(s@.take(i + 1 as int).drop_last() =~= s@.take(i as int));
            assert(s@.take(i + 1 as int).last() == s@[i as int]);
        }
        if next > 0xFFFF_FFFF {
            proof {
                assert(spec_all_hex(s@.take(i + 1 as int)));
                if spec_all_hex(s@) {
                    lemma_hex_val_monotone(s@, i + 1 as int);
                }
            }
            return None;
        }
        val = next;
        proof {
            assert(spec_all_hex(s@.take(i + 1 as int)));
        }
        i = i + 1;
    }
    proof {
        assert(s@.take(n as int) =~= s@);
    }
    Some(val as u32)
}

/// A hex string's value only grows with more digits.
proof fn lemma_hex_val_monotone(s: Seq<u8>, k: int)
    requires
        0 <= k <= s.len(),
        spec_all_hex(s),
    ensures
        spec_hex_val(s) >= spec_hex_val(s.take(k)),
    decreases s.len() - k,
{
    if k < s.len() {
        lemma_hex_val_monotone(s, k + 1);
        assert(s.take(k + 1).drop_last() =~= s.take(k));
        assert(s.take(k + 1).last() == s[k]);
        assert(spec_hex_val(s.take(k)) >= 0) by {
            lemma_hex_val_nonneg(s.take(k));
        }
        let d = match spec_hex_digit(s[k]) {
            Some(d) => d,
            None => 0,
        };
        assert(0 <= d);
        assert(spec_hex_val(s.take(k + 1)) >= spec_hex_val(s.take(k))) by (nonlinear_arith)
            requires
                spec_hex_val(s.take(k + 1)) == spec_hex_val(s.take(k)) * 16 + d,
                spec_hex_val(s.take(k)) >= 0,
                0 <= d,
        ;
    } else {
        assert(s.take(k) =~= s);
    }
}

/// A hex string's value is never negative.
proof fn lemma_hex_val_nonneg(s: Seq<u8>)
    requires
        spec_all_hex(s),
    ensures
        spec_hex_val(s) >= 0,
    decreases s.len(),
{
    if s.len() > 0 {
        assert(spec_all_hex(s.drop_last()));
        lemma_hex_val_nonneg(s.drop_last());
        let d = match spec_hex_digit(s.last()) {
            Some(d) => d,
            None => 0,
        };
        assert(0 <= d);
        assert(spec_hex_val(s.drop_last()) * 16 >= 0) by (nonlinear_arith)
            requires
                spec_hex_val(s.drop_last()) >= 0,
        ;
    }
}

/// The numeric value of an enum `<entry>` text: a decimal number, or a
/// hexadecimal one with an `0x`/`0X` prefix, where it fits `u32`; none
/// otherwise. The prefix byte `x`/`X` is no decimal digit, so the two
/// readings never overlap.
pub open spec fn spec_entry_val(s: Seq<u8>) -> Option<u32> {
    if s.len() > 0 && spec_all_dec(s) && spec_dec_val(s) <= u32::MAX {
        Some(spec_dec_val(s) as u32)
    } else if s.len() > 2 && s[0] == 48 && (s[1] == 120 || s[1] == 88) && spec_all_hex(s.skip(2))
        && spec_hex_val(s.skip(2)) <= u32::MAX {
        Some(spec_hex_val(s.skip(2)) as u32)
    } else {
        None
    }
}

/// Parse an enum entry value: decimal, or hexadecimal with an `0x`
/// prefix, exactly as protocol documents write them and exactly as
/// [`spec_entry_val`] reads them.
pub fn parse_entry_value(s: &Vec<u8>) -> (r: Option<u32>)
    ensures
        r == spec_entry_val(s@),
{
    match parse_u32_dec(s) {
        Some(v) => Some(v),
        None => {
            if s.len() >= 2 {
                if s[0] == 48 && (s[1] == 120 || s[1] == 88) {
                    let mut tail: Vec<u8> = Vec::new();
                    let mut i: usize = 2;
                    let n = s.len();
                    while i < n
                        invariant
                            2 <= i <= n,
                            n == s@.len(),
                            tail@ == s@.subrange(2, i as int),
                        decreases n - i,
                    {
                        tail.push(s[i]);
                        proof {
                            assert(tail@ =~= s@.subrange(2, i + 1 as int));
                        }
                        i = i + 1;
                    }
                    proof {
                        assert(tail@ =~= s@.skip(2));
                    }
                    parse_u32_hex(&tail)
                } else {
                    None
                }
            } else {
                None
            }
        },
    }
}

/// Byte-wise equality of a byte vector and a string literal's bytes.
fn name_is(a: &Vec<u8>, b: &str) -> (r: bool)
    ensures
        r == (a@ == b.spec_bytes()),
{
    let bv = b.as_bytes_vec();
    if a.len() != bv.len() {
        proof {
            assert(a@ != b.spec_bytes());
        }
        return false;
    }
    let n = a.len();
    let mut i: usize = 0;
    while i < n
        invariant
            i <= n,
            n == a@.len(),
            n == bv@.len(),
            bv@ == b.spec_bytes(),
            forall|j: int| 0 <= j < i ==> a@[j] == bv@[j],
        decreases n - i,
    {
        if a[i] != bv[i] {
            proof {
                assert(a@[i as int] != b.spec_bytes()[i as int]);
            }
            return false;
        }
        i = i + 1;
    }
    proof {
        assert(a@ =~= b.spec_bytes());
    }
    true
}

/// The value of the first attribute with the given key, if any.
pub open spec fn spec_find_attr(attrs: Seq<(Vec<u8>, Vec<u8>)>, key: Seq<u8>) -> Option<Seq<u8>>
    decreases attrs.len(),
{
    if attrs.len() == 0 {
        None
    } else if attrs[0].0@ == key {
        Some(attrs[0].1@)
    } else {
        spec_find_attr(attrs.drop_first(), key)
    }
}

/// The value of an attribute by key, if present.
fn find_attr(attrs: &Vec<(Vec<u8>, Vec<u8>)>, key: &str) -> (r: Option<Vec<u8>>)
    ensures
        match r {
            Some(v) => spec_find_attr(attrs@, key.spec_bytes()) == Some(v@),
            None => spec_find_attr(attrs@, key.spec_bytes()) is None,
        },
{
    let n = attrs.len();
    let mut i: usize = 0;
    proof {
        assert(attrs@.skip(0) =~= attrs@);
    }
    while i < n
        invariant
            i <= n,
            n == attrs@.len(),
            spec_find_attr(attrs@, key.spec_bytes()) == spec_find_attr(
                attrs@.skip(i as int),
                key.spec_bytes(),
            ),
        decreases n - i,
    {
        proof {
            assert(attrs@.skip(i as int)[0] == attrs@[i as int]);
            assert(attrs@.skip(i as int).drop_first() =~= attrs@.skip(i as int + 1));
        }
        if name_is(&attrs[i].0, key) {
            let mut out: Vec<u8> = Vec::new();
            out.extend_from_slice(attrs[i].1.as_slice());
            proof {
                assert(out@ =~= attrs@[i as int].1@);
            }
            return Some(out);
        }
        i = i + 1;
    }
    proof {
        assert(attrs@.skip(n as int) =~= Seq::<(Vec<u8>, Vec<u8>)>::empty());
    }
    None
}

/// The `allow-null` flag of an attribute list.
pub open spec fn spec_optional(attrs: Seq<(Vec<u8>, Vec<u8>)>) -> bool {
    spec_find_attr(attrs, "allow-null".spec_bytes()) == Some("true".spec_bytes())
}

/// Whether an `<arg type=...>` text with the given `allow-null` flag
/// names a wire type the grammar accepts.
pub open spec fn spec_type_accepted(tt: Seq<u8>, optional: bool) -> bool {
    ||| (tt == "int".spec_bytes() && !optional)
    ||| (tt == "uint".spec_bytes() && !optional)
    ||| (tt == "fixed".spec_bytes() && !optional)
    ||| (tt == "fd".spec_bytes() && !optional)
    ||| tt == "string".spec_bytes()
    ||| tt == "array".spec_bytes()
    ||| tt == "new_id".spec_bytes()
    ||| tt == "object".spec_bytes()
}

/// The wire type an `<arg>` resolves to, checked field by field
/// against the type text, the target interface and the `allow-null`
/// flag.
pub open spec fn spec_value_type_is(
    vt: ValueType,
    tt: Seq<u8>,
    iface: Option<Seq<u8>>,
    optional: bool,
) -> bool {
    &&& (tt == "int".spec_bytes() ==> vt is I32 && !optional)
    &&& (tt == "uint".spec_bytes() ==> vt is U32 && !optional)
    &&& (tt == "fixed".spec_bytes() ==> vt is Fixed && !optional)
    &&& (tt == "fd".spec_bytes() ==> vt is Fd && !optional)
    &&& (tt == "string".spec_bytes() ==> (vt matches ValueType::Str { optional: o } && o
        == optional))
    &&& (tt == "array".spec_bytes() ==> (vt matches ValueType::Array { optional: o } && o
        == optional))
    &&& (tt == "new_id".spec_bytes() || tt == "object".spec_bytes() ==> (vt matches ValueType::ObjectId { interface: i, optional: o }
        && o == optional && (match (i, iface) {
        (Some(v), Some(s)) => v@ == s,
        (None, None) => true,
        _ => false,
    })))
}

/// The index of the first `.` in `s` at or after `i`, or the length.
pub open spec fn spec_dot_from(s: Seq<u8>, i: int) -> int
    decreases s.len() - i,
{
    if i < 0 || i >= s.len() {
        s.len() as int
    } else if s[i] == 46 {
        i
    } else {
        spec_dot_from(s, i + 1)
    }
}

/// Scanning for the first dot may start past any dot-free prefix.
proof fn lemma_dot_from_clean(s: Seq<u8>, k: int)
    requires
        0 <= k <= s.len(),
        forall|j: int| 0 <= j < k ==> s[j] != 46,
    ensures
        spec_dot_from(s, 0) == spec_dot_from(s, k),
    decreases k,
{
    if k > 0 {
        lemma_dot_from_clean(s, k - 1);
    }
}

/// Whether an `<arg>` with these attributes is accepted at all: a name
/// and a grammar-accepted type, and an `enum=` refinement only on an
/// integer argument.
pub open spec fn spec_arg_accepted(attrs: Seq<(Vec<u8>, Vec<u8>)>) -> bool {
    &&& spec_find_attr(attrs, "name".spec_bytes()) is Some
    &&& match spec_find_attr(attrs, "type".spec_bytes()) {
        Some(tt) => spec_type_accepted(tt, spec_optional(attrs)) && (spec_find_attr(
            attrs,
            "enum".spec_bytes(),
        ) is Some ==> tt == "int".spec_bytes() || tt == "uint".spec_bytes()),
        None => false,
    }
}

/// What a built argument holds, attribute by attribute: the name
/// attribute names it; an `enum=` attribute makes it the named enum,
/// split at the first dot or resolved against the enclosing interface;
/// otherwise the type attribute fixes the wire type.
pub open spec fn spec_arg_ok(
    a: Argument,
    iface_name: Seq<u8>,
    attrs: Seq<(Vec<u8>, Vec<u8>)>,
) -> bool {
    &&& spec_find_attr(attrs, "name".spec_bytes()) == Some(a.name@)
    &&& match spec_find_attr(attrs, "enum".spec_bytes()) {
        Some(full) => (a.value_type matches ValueType::Enum { interface, name } && ({
            let dot = spec_dot_from(full, 0);
            if dot < full.len() {
                interface@ == full.take(dot) && name@ == full.skip(dot + 1)
            } else {
                interface@ == iface_name && name@ == full
            }
        })),
        None => match spec_find_attr(attrs, "type".spec_bytes()) {
            Some(tt) => spec_value_type_is(
                a.value_type,
                tt,
                spec_find_attr(attrs, "interface".spec_bytes()),
                spec_optional(attrs),
            ),
            None => false,
        },
    }
}

impl ValueType {
    /// Resolve an `<arg>` type name, exactly as the grammar allows:
    /// `int`, `uint`, `fixed` and `fd` refuse `allow-null`; `new_id`
    /// and `object` carry the target interface if one was named.
    pub fn parse(value_type: &Vec<u8>, interface: Option<Vec<u8>>, optional: bool) -> (r:
        Option<ValueType>)
        ensures
            value_type@ == "int".spec_bytes() && !optional ==> r == Some(ValueType::I32),
            value_type@ == "uint".spec_bytes() && !optional ==> r == Some(ValueType::U32),
            value_type@ == "fixed".spec_bytes() && !optional ==> r == Some(ValueType::Fixed),
            value_type@ == "fd".spec_bytes() && !optional ==> r == Some(ValueType::Fd),
            value_type@ == "string".spec_bytes() ==> r == Some(ValueType::Str { optional }),
            value_type@ == "array".spec_bytes() ==> r == Some(ValueType::Array { optional }),
            value_type@ == "new_id".spec_bytes() || value_type@ == "object".spec_bytes() ==> r
                == Some(ValueType::ObjectId { interface, optional }),
            (value_type@ == "int".spec_bytes() || value_type@ == "uint".spec_bytes()
                || value_type@ == "fixed".spec_bytes() || value_type@ == "fd".spec_bytes())
                && optional ==> r is None,
            value_type@ != "int".spec_bytes() && value_type@ != "uint".spec_bytes()
                && value_type@ != "fixed".spec_bytes() && value_type@ != "new_id".spec_bytes()
                && value_type@ != "object".spec_bytes() && value_type@ != "string".spec_bytes()
                && value_type@ != "array".spec_bytes() && value_type@ != "fd".spec_bytes()
                ==> r is None,
    {
        proof {
            lemma_type_names_distinct();
        }
        if name_is(value_type, "int") {
            if !optional {
                Some(ValueType::I32)
            } else {
                None
            }
        } else if name_is(value_type, "uint") {
            if !optional {
                Some(ValueType::U32)
            } else {
                None
            }
        } else if name_is(value_type, "fixed") {
            if !optional {
                Some(ValueType::Fixed)
            } else {
                None
            }
        } else if name_is(value_type, "new_id") || name_is(value_type, "object") {
            Some(ValueType::ObjectId { interface, optional })
        } else if name_is(value_type, "string") {
            Some(ValueType::Str { optional })
        } else if name_is(value_type, "array") {
            Some(ValueType::Array { optional })
        } else if name_is(value_type, "fd") {
            if !optional {
                Some(ValueType::Fd)
            } else {
                None
            }
        } else {
            None
        }
    }
}


/// The eight `<arg>` type names are pairwise distinct as byte strings.
proof fn lemma_type_names_distinct()
    ensures
        "int".spec_bytes() != "uint".spec_bytes(),
        "int".spec_bytes() != "fixed".spec_bytes(),
        "int".spec_bytes() != "new_id".spec_bytes(),
        "int".spec_bytes() != "object".spec_bytes(),
        "int".spec_bytes() != "string".spec_bytes(),
        "int".spec_bytes() != "array".spec_bytes(),
        "int".spec_bytes() != "fd".spec_bytes(),
        "uint".spec_bytes() != "fixed".spec_bytes(),
        "uint".spec_bytes() != "new_id".spec_bytes(),
        "uint".spec_bytes() != "object".spec_bytes(),
        "uint".spec_bytes() != "string".spec_bytes(),
        "uint".spec_bytes() != "array".spec_bytes(),
        "uint".spec_bytes() != "fd".spec_bytes(),
        "fixed".spec_bytes() != "new_id".spec_bytes(),
        "fixed".spec_bytes() != "object".spec_bytes(),
        "fixed".spec_bytes() != "string".spec_bytes(),
        "fixed".spec_bytes() != "array".spec_bytes(),
        "fixed".spec_bytes() != "fd".spec_bytes(),
        "new_id".spec_bytes() != "object".spec_bytes(),
        "new_id".spec_bytes() != "string".spec_bytes(),
        "new_id".spec_bytes() != "array".spec_bytes(),
        "new_id".spec_bytes() != "fd".spec_bytes(),
        "object".spec_bytes() != "string".spec_bytes(),
        "object".spec_bytes() != "array".spec_bytes(),
        "object".spec_bytes() != "fd".spec_bytes(),
        "string".spec_bytes() != "array".spec_bytes(),
        "string".spec_bytes() != "fd".spec_bytes(),
        "array".spec_bytes() != "fd".spec_bytes(),
{
    broadcast use vstd::string::is_ascii_spec_bytes;

    reveal_strlit("int");
    reveal_strlit("uint");
    reveal_strlit("fixed");
    reveal_strlit("new_id");
    reveal_strlit("object");
    reveal_strlit("string");
    reveal_strlit("array");
    reveal_strlit("fd");
    assert(vstd::string::is_ascii("int"));
    assert(vstd::string::is_ascii("uint"));
    assert(vstd::string::is_ascii("fixed"));
    assert(vstd::string::is_ascii("new_id"));
    assert(vstd::string::is_ascii("object"));
    assert(vstd::string::is_ascii("string"));
    assert(vstd::string::is_ascii("array"));
    assert(vstd::string::is_ascii("fd"));
    assert("int".spec_bytes().len() == 3);
    assert("uint".spec_bytes().len() == 4);
    assert("fixed".spec_bytes().len() == 5);
    assert("new_id".spec_bytes().len() == 6);
    assert("object".spec_bytes().len() == 6);
    assert("string".spec_bytes().len() == 6);
    assert("array".spec_bytes().len() == 5);
    assert("fd".spec_bytes().len() == 2);
    assert("new_id".spec_bytes()[0] == 110u8);
    assert("object".spec_bytes()[0] == 111u8);
    assert("string".spec_bytes()[0] == 115u8);
    assert("fixed".spec_bytes()[0] == 102u8);
    assert("array".spec_bytes()[0] == 97u8);
}

/// The grammar's tag names are pairwise distinct as byte strings, in
/// the pairs the scanner tells apart.
proof fn lemma_tag_names_distinct()
    ensures
        "description".spec_bytes() != "event".spec_bytes(),
        "description".spec_bytes() != "request".spec_bytes(),
        "description".spec_bytes() != "enum".spec_bytes(),
        "description".spec_bytes() != "arg".spec_bytes(),
        "description".spec_bytes() != "interface".spec_bytes(),
        "description".spec_bytes() != "copyright".spec_bytes(),
        "description".spec_bytes() != "protocol".spec_bytes(),
        "description".spec_bytes() != "entry".spec_bytes(),
        "event".spec_bytes() != "request".spec_bytes(),
        "event".spec_bytes() != "enum".spec_bytes(),
        "request".spec_bytes() != "enum".spec_bytes(),
        "copyright".spec_bytes() != "interface".spec_bytes(),
        "copyright".spec_bytes() != "protocol".spec_bytes(),
{
    broadcast use vstd::string::is_ascii_spec_bytes;

    reveal_strlit("description");
    reveal_strlit("event");
    reveal_strlit("request");
    reveal_strlit("enum");
    reveal_strlit("arg");
    reveal_strlit("interface");
    reveal_strlit("copyright");
    reveal_strlit("protocol");
    reveal_strlit("entry");
    assert(vstd::string::is_ascii("description"));
    assert(vstd::string::is_ascii("event"));
    assert(vstd::string::is_ascii("request"));
    assert(vstd::string::is_ascii("enum"));
    assert(vstd::string::is_ascii("arg"));
    assert(vstd::string::is_ascii("interface"));
    assert(vstd::string::is_ascii("copyright"));
    assert(vstd::string::is_ascii("protocol"));
    assert(vstd::string::is_ascii("entry"));
    assert("description".spec_bytes().len() == 11);
    assert("event".spec_bytes().len() == 5);
    assert("request".spec_bytes().len() == 7);
    assert("enum".spec_bytes().len() == 4);
    assert("arg".spec_bytes().len() == 3);
    assert("interface".spec_bytes().len() == 9);
    assert("copyright".spec_bytes().len() == 9);
    assert("protocol".spec_bytes().len() == 8);
    assert("entry".spec_bytes().len() == 5);
    assert("copyright".spec_bytes()[0] == 99u8);
    assert("interface".spec_bytes()[0] == 105u8);
}

/// The scanner's position in the protocol grammar, with what it has
/// accumulated so far.
pub struct ProtocolParser {
    protocol: Option<Protocol>,
    cur_interface: Option<InterfaceDef>,
    cur_enum: Option<EnumDef>,
    cur_callable: Option<(Callable, bool)>,
}

impl ProtocolParser {
    /// A grammar-consistent state: inner positions exist only inside
    /// their enclosing ones, and at most one of enum/callable is open.
    pub closed spec fn wf(&self) -> bool {
        &&& (self.cur_interface is Some ==> self.protocol is Some)
        &&& (self.cur_enum is Some ==> self.cur_interface is Some)
        &&& (self.cur_callable is Some ==> self.cur_interface is Some)
        &&& !(self.cur_enum is Some && self.cur_callable is Some)
    }

    /// The protocol model accumulated so far, if the root was opened.
    pub closed spec fn spec_protocol(&self) -> Option<Protocol> {
        self.protocol
    }

    /// The interface currently open, if any.
    pub closed spec fn spec_cur_interface(&self) -> Option<InterfaceDef> {
        self.cur_interface
    }

    /// The enum currently open, if any.
    pub closed spec fn spec_cur_enum(&self) -> Option<EnumDef> {
        self.cur_enum
    }

    /// The request or event currently open, if any, with its kind flag
    /// (`true` for an event).
    pub closed spec fn spec_cur_callable(&self) -> Option<(Callable, bool)> {
        self.cur_callable
    }

    /// Whether a protocol root has been opened.
    pub closed spec fn has_protocol(&self) -> bool {
        self.protocol is Some
    }

    pub fn new() -> (r: ProtocolParser)
        ensures
            r.wf(),
            !r.has_protocol(),
    {
        ProtocolParser { protocol: None, cur_interface: None, cur_enum: None, cur_callable: None }
    }

    /// The finished protocol model, if the document provided one.
    pub fn finish(self) -> (r: Option<Protocol>)
        ensures
            r is Some <==> self.has_protocol(),
    {
        self.protocol
    }

    /// Open the protocol root with the name attribute and no
    /// interfaces yet.
    fn create_protocol(&mut self, attrs: &Vec<(Vec<u8>, Vec<u8>)>) -> (r: Result<(), ScanError>)
        requires
            old(self).wf(),
            !old(self).has_protocol(),
        ensures
            final(self).wf(),
            r is Ok <==> final(self).has_protocol(),
            r is Ok <==> spec_find_attr(attrs@, "name".spec_bytes()) is Some,
            r is Ok ==> (final(self).spec_protocol() matches Some(p) && spec_find_attr(
                attrs@,
                "name".spec_bytes(),
            ) == Some(p.name@) && p.interfaces@ == Seq::<InterfaceDef>::empty()),
            r is Err ==> r == Err::<(), ScanError>(ScanError::MissingAttribute) && *final(self)
                == *old(self),
    {
        match find_attr(attrs, "name") {
            Some(name) => {
                self.protocol = Some(Protocol { name, interfaces: Vec::new() });
                Ok(())
            },
            None => Err(ScanError::MissingAttribute),
        }
    }

    /// Open an `<interface name=... version=...>`: an empty interface
    /// with that name and version.
    fn create_cur_interface(&mut self, attrs: &Vec<(Vec<u8>, Vec<u8>)>) -> (r: Result<
        (),
        ScanError,
    >)
        requires
            old(self).wf(),
            old(self).has_protocol(),
            old(self).cur_interface is None,
        ensures
            final(self).wf(),
            final(self).has_protocol(),
            r is Ok <==> (spec_find_attr(attrs@, "name".spec_bytes()) is Some && (
            match spec_find_attr(attrs@, "version".spec_bytes()) {
                Some(v) => v.len() > 0 && spec_all_dec(v) && spec_dec_val(v) <= u32::MAX,
                None => false,
            })),
            r is Ok ==> (final(self).spec_cur_interface() matches Some(i) && spec_find_attr(
                attrs@,
                "name".spec_bytes(),
            ) == Some(i.name@) && (match spec_find_attr(attrs@, "version".spec_bytes()) {
                Some(v) => i.version == spec_dec_val(v),
                None => false,
            }) && i.requests@ == Seq::<Callable>::empty() && i.events@ == Seq::<
                Callable,
            >::empty() && i.enums@ == Seq::<EnumDef>::empty()),
            final(self).spec_protocol() == old(self).spec_protocol(),
            final(self).spec_cur_enum() == old(self).spec_cur_enum(),
            final(self).spec_cur_callable() == old(self).spec_cur_callable(),
            r is Err ==> *final(self) == *old(self),
    {
        let name = match find_attr(attrs, "name") {
            Some(n) => n,
            None => {
                return Err(ScanError::MissingAttribute);
            },
        };
        let version_text = match find_attr(attrs, "version") {
            Some(v) => v,
            None => {
                return Err(ScanError::MissingAttribute);
            },
        };
        let version = match parse_u32_dec(&version_text) {
            Some(v) => v,
            None => {
                return Err(ScanError::InvalidValue);
            },
        };
        self.cur_interface = Some(
            InterfaceDef {
                name,
                version,
                requests: Vec::new(),
                events: Vec::new(),
                enums: Vec::new(),
            },
        );
        Ok(())
    }

    /// Open an `<enum name=...>`: an empty enum with that name.
    fn create_cur_enum(&mut self, attrs: &Vec<(Vec<u8>, Vec<u8>)>) -> (r: Result<(), ScanError>)
        requires
            old(self).wf(),
            old(self).cur_interface is Some,
            old(self).cur_enum is None,
            old(self).cur_callable is None,
        ensures
            final(self).wf(),
            final(self).has_protocol() == old(self).has_protocol(),
            r is Ok <==> spec_find_attr(attrs@, "name".spec_bytes()) is Some,
            r is Ok ==> (final(self).spec_cur_enum() matches Some(e) && spec_find_attr(
                attrs@,
                "name".spec_bytes(),
            ) == Some(e.name@) && e.entries@ == Seq::<(Vec<u8>, u32)>::empty()),
            final(self).spec_protocol() == old(self).spec_protocol(),
            final(self).spec_cur_interface() == old(self).spec_cur_interface(),
            final(self).spec_cur_callable() == old(self).spec_cur_callable(),
            r is Err ==> r == Err::<(), ScanError>(ScanError::MissingAttribute) && *final(self)
                == *old(self),
    {
        match find_attr(attrs, "name") {
            Some(name) => {
                self.cur_enum = Some(EnumDef { name, entries: Vec::new() });
                Ok(())
            },
            None => Err(ScanError::MissingAttribute),
        }
    }

    /// Open a `<request name=...>` or `<event name=...>`: an empty
    /// callable with that name and kind.
    fn create_cur_callable(&mut self, attrs: &Vec<(Vec<u8>, Vec<u8>)>, is_event: bool) -> (r:
        Result<(), ScanError>)
        requires
            old(self).wf(),
            old(self).cur_interface is Some,
            old(self).cur_enum is None,
            old(self).cur_callable is None,
        ensures
            final(self).wf(),
            final(self).has_protocol() == old(self).has_protocol(),
            r is Ok <==> spec_find_attr(attrs@, "name".spec_bytes()) is Some,
            r is Ok ==> (final(self).spec_cur_callable() matches Some(p) && p.1 == is_event
                && spec_find_attr(attrs@, "name".spec_bytes()) == Some(p.0.name@) && p.0.args@
                == Seq::<Argument>::empty()),
            final(self).spec_protocol() == old(self).spec_protocol(),
            final(self).spec_cur_interface() == old(self).spec_cur_interface(),
            final(self).spec_cur_enum() == old(self).spec_cur_enum(),
            r is Err ==> r == Err::<(), ScanError>(ScanError::MissingAttribute) && *final(self)
                == *old(self),
    {
        match find_attr(attrs, "name") {
            Some(name) => {
                self.cur_callable = Some((Callable { name, args: Vec::new() }, is_event));
                Ok(())
            },
            None => Err(ScanError::MissingAttribute),
        }
    }

    /// Build one `<arg>` of the current request or event.
    ///
    /// An `enum=` attribute refines an `int` or `uint` argument into
    /// the named enum, resolved against the given interface where the
    /// attribute does not qualify one.
    pub fn create_arg(interface_name: &Vec<u8>, attrs: &Vec<(Vec<u8>, Vec<u8>)>) -> (r: Result<
        Argument,
        ScanError,
    >)
        ensures
            r is Ok <==> spec_arg_accepted(attrs@),
            r matches Ok(a) ==> spec_arg_ok(a, interface_name@, attrs@),
            spec_find_attr(attrs@, "name".spec_bytes()) is None ==> r == Err::<
                Argument,
                ScanError,
            >(ScanError::MissingAttribute),
    {
        proof {
            lemma_type_names_distinct();
        }
        let name = match find_attr(attrs, "name") {
            Some(n) => n,
            None => {
                return Err(ScanError::MissingAttribute);
            },
        };
        let value_type_text = match find_attr(attrs, "type") {
            Some(t) => t,
            None => {
                return Err(ScanError::MissingAttribute);
            },
        };
        let interface = find_attr(attrs, "interface");
        let optional = match find_attr(attrs, "allow-null") {
            Some(v) => name_is(&v, "true"),
            None => false,
        };
        proof {
            assert(optional == spec_optional(attrs@));
        }

        let mut value_type = match ValueType::parse(&value_type_text, interface, optional) {
            Some(vt) => vt,
            None => {
                return Err(ScanError::InvalidValue);
            },
        };

        match find_attr(attrs, "enum") {
            Some(full) => {
                // Only integer arguments may carry an enum refinement.
                let is_int = match &value_type {
                    ValueType::I32 => true,
                    ValueType::U32 => true,
                    _ => false,
                };
                if !is_int {
                    return Err(ScanError::InvalidValue);
                }
                // Split a qualified `interface.name`; otherwise the
                // enum belongs to the enclosing interface.
                let n = full.len();
                let mut dot: usize = n;
                let mut i: usize = 0;
                while i < n
                    invariant
                        i <= n,
                        n == full@.len(),
                        dot == n || (dot < i && full@[dot as int] == 46 && forall|j: int|
                            0 <= j < dot ==> full@[j] != 46),
                        dot == n ==> forall|j: int| 0 <= j < i ==> full@[j] != 46,
                    decreases n - i,
                {
                    if dot == n && full[i] == 46 {
                        dot = i;
                    }
                    i = i + 1;
                }
                proof {
                    if dot < n {
                        lemma_dot_from_clean(full@, dot as int);
                        assert(spec_dot_from(full@, 0) == dot);
                    } else {
                        lemma_dot_from_clean(full@, n as int);
                        assert(spec_dot_from(full@, 0) == n);
                    }
                }
                if dot < n {
                    let mut iface: Vec<u8> = Vec::new();
                    let mut ename: Vec<u8> = Vec::new();
                    let mut j: usize = 0;
                    while j < dot
                        invariant
                            j <= dot,
                            dot < n,
                            n == full@.len(),
                            iface@ == full@.take(j as int),
                        decreases dot - j,
                    {
                        iface.push(full[j]);
                        proof {
                            assert(iface@ =~= full@.take(j + 1 as int));
                        }
                        j = j + 1;
                    }
                    let mut j: usize = dot + 1;
                    while j < n
                        invariant
                            dot < j <= n,
                            n == full@.len(),
                            ename@ == full@.subrange(dot as int + 1, j as int),
                        decreases n - j,
                    {
                        ename.push(full[j]);
                        proof {
                            assert(ename@ =~= full@.subrange(dot as int + 1, j + 1 as int));
                        }
                        j = j + 1;
                    }
                    proof {
                        assert(ename@ =~= full@.skip(dot as int + 1));
                    }
                    value_type = ValueType::Enum { interface: iface, name: ename };
                } else {
                    let mut iface: Vec<u8> = Vec::new();
                    iface.extend_from_slice(interface_name.as_slice());
                    proof {
                        assert(iface@ =~= interface_name@);
                    }
                    value_type = ValueType::Enum { interface: iface, name: full };
                }
            },
            None => {},
        }

        Ok(Argument { name, value_type })
    }

    /// Build one `<entry>` of the current enum: its name and numeric
    /// value, decimal or `0x`-hexadecimal.
    ///
    /// Accepted exactly when both attributes are present and the value
    /// reads as [`spec_entry_val`] says; the pair is then that name and
    /// that value.
    pub fn create_enum_entry(attrs: &Vec<(Vec<u8>, Vec<u8>)>) -> (r: Result<
        (Vec<u8>, u32),
        ScanError,
    >)
        ensures
            r is Ok <==> (spec_find_attr(attrs@, "name".spec_bytes()) is Some && (
            match spec_find_attr(attrs@, "value".spec_bytes()) {
                Some(v) => spec_entry_val(v) is Some,
                None => false,
            })),
            r matches Ok(p) ==> spec_find_attr(attrs@, "name".spec_bytes()) == Some(p.0@) && (
            match spec_find_attr(attrs@, "value".spec_bytes()) {
                Some(v) => spec_entry_val(v) == Some(p.1),
                None => false,
            }),
            spec_find_attr(attrs@, "name".spec_bytes()) is None ==> r == Err::<
                (Vec<u8>, u32),
                ScanError,
            >(ScanError::MissingAttribute),
    {
        let name = match find_attr(attrs, "name") {
            Some(n) => n,
            None => {
                return Err(ScanError::MissingAttribute);
            },
        };
        let text = match find_attr(attrs, "value") {
            Some(v) => v,
            None => {
                return Err(ScanError::MissingAttribute);
            },
        };
        match parse_entry_value(&text) {
            Some(v) => Ok((name, v)),
            None => Err(ScanError::InvalidValue),
        }
    }

    /// Handle a start tag: open the model position it names, or report
    /// where it leaves the grammar.
    fn handle_start(&mut self, name: &Vec<u8>, attrs: &Vec<(Vec<u8>, Vec<u8>)>) -> (r: Result<
        bool,
        ScanError,
    >)
        requires
            old(self).wf(),
            old(self).has_protocol(),
        ensures
            final(self).wf(),
            final(self).has_protocol(),
            r is Ok ==> r == Ok::<bool, ScanError>(true),
            r is Err ==> *final(self) == *old(self),
            old(self).spec_cur_callable() is Some || old(self).spec_cur_enum() is Some ==> (
            *final(self) == *old(self) && (r is Ok <==> name@ == "description".spec_bytes())),
            old(self).spec_cur_callable() is None && old(self).spec_cur_enum() is None && old(
                self,
            ).spec_cur_interface() is Some ==> {
                &&& (r is Ok <==> (name@ == "description".spec_bytes() || ((name@
                    == "event".spec_bytes() || name@ == "request".spec_bytes() || name@
                    == "enum".spec_bytes()) && spec_find_attr(attrs@, "name".spec_bytes())
                    is Some)))
                &&& (name@ == "description".spec_bytes() ==> *final(self) == *old(self))
                &&& ((name@ == "event".spec_bytes() || name@ == "request".spec_bytes()) && r
                    is Ok ==> (final(self).spec_cur_callable() matches Some(p) && p.1 == (name@
                    == "event".spec_bytes()) && spec_find_attr(attrs@, "name".spec_bytes())
                    == Some(p.0.name@) && p.0.args@ == Seq::<Argument>::empty() && final(self).spec_cur_interface() == old(self).spec_cur_interface() && final(self).spec_protocol() == old(self).spec_protocol() && final(self).spec_cur_enum()
                    is None))
                &&& (name@ == "enum".spec_bytes() && r is Ok ==> (final(self).spec_cur_enum() matches Some(
                    e,
                ) && spec_find_attr(attrs@, "name".spec_bytes()) == Some(e.name@) && e.entries@
                    == Seq::<(Vec<u8>, u32)>::empty() && final(self).spec_cur_interface()
                    == old(self).spec_cur_interface() && final(self).spec_protocol() == old(
                    self,
                ).spec_protocol() && final(self).spec_cur_callable() is None))
            },
            old(self).spec_cur_callable() is None && old(self).spec_cur_enum() is None && old(
                self,
            ).spec_cur_interface() is None ==> {
                &&& (r is Ok <==> (name@ == "copyright".spec_bytes() || (name@
                    == "interface".spec_bytes() && spec_find_attr(attrs@, "name".spec_bytes())
                    is Some && (match spec_find_attr(attrs@, "version".spec_bytes()) {
                    Some(v) => v.len() > 0 && spec_all_dec(v) && spec_dec_val(v) <= u32::MAX,
                    None => false,
                }))))
                &&& (name@ == "copyright".spec_bytes() ==> *final(self) == *old(self))
                &&& (name@ == "interface".spec_bytes() && r is Ok ==> (final(self).spec_cur_interface() matches Some(
                    i,
                ) && spec_find_attr(attrs@, "name".spec_bytes()) == Some(i.name@) && (
                match spec_find_attr(attrs@, "version".spec_bytes()) {
                    Some(v) => i.version == spec_dec_val(v),
                    None => false,
                }) && i.requests@ == Seq::<Callable>::empty() && i.events@ == Seq::<
                    Callable,
                >::empty() && i.enums@ == Seq::<EnumDef>::empty() && final(self).spec_protocol()
                    == old(self).spec_protocol() && final(self).spec_cur_enum() is None
                    && final(self).spec_cur_callable() is None))
            },
    {
        proof {
            lemma_tag_names_distinct();
        }
        if self.cur_callable.is_some() {
            if name_is(name, "description") {
                Ok(true)
            } else {
                Err(ScanError::UnexpectedTag)
            }
        } else if self.cur_enum.is_some() {
            if name_is(name, "description") {
                Ok(true)
            } else {
                Err(ScanError::UnexpectedTag)
            }
        } else if self.cur_interface.is_some() {
            if name_is(name, "description") {
                Ok(true)
            } else if name_is(name, "event") {
                match self.create_cur_callable(attrs, true) {
                    Ok(()) => Ok(true),
                    Err(e) => Err(e),
                }
            } else if name_is(name, "request") {
                match self.create_cur_callable(attrs, false) {
                    Ok(()) => Ok(true),
                    Err(e) => Err(e),
                }
            } else if name_is(name, "enum") {
                match self.create_cur_enum(attrs) {
                    Ok(()) => Ok(true),
                    Err(e) => Err(e),
                }
            } else {
                Err(ScanError::UnexpectedTag)
            }
        } else {
            if name_is(name, "copyright") {
                Ok(true)
            } else if name_is(name, "interface") {
                match self.create_cur_interface(attrs) {
                    Ok(()) => Ok(true),
                    Err(e) => Err(e),
                }
            } else {
                Err(ScanError::UnexpectedTag)
            }
        }
    }

    /// Handle an end tag: close the innermost open position, pushing
    /// what it accumulated onto its parent. `Ok(false)` closes the
    /// protocol root.
    fn handle_end(&mut self, name: &Vec<u8>) -> (r: Result<bool, ScanError>)
        requires
            old(self).wf(),
            old(self).has_protocol(),
        ensures
            final(self).wf(),
            final(self).has_protocol(),
            r == Ok::<bool, ScanError>(false) ==> final(self).ready(),
            r is Err ==> *final(self) == *old(self),
            old(self).spec_cur_callable() matches Some(p) ==> {
                &&& (name@ == "description".spec_bytes() ==> r == Ok::<bool, ScanError>(true)
                    && *final(self) == *old(self))
                &&& ((name@ == "event".spec_bytes() && p.1) || (name@ == "request".spec_bytes()
                    && !p.1) ==> (r == Ok::<bool, ScanError>(true) && final(self).spec_cur_callable() is None && (old(self).spec_cur_interface() matches Some(oi)
                    && (final(self).spec_cur_interface() matches Some(ni) && ni.name == oi.name
                    && ni.version == oi.version && ni.enums == oi.enums && (p.1 ==> ni.events@
                    == oi.events@.push(p.0) && ni.requests == oi.requests) && (!p.1
                    ==> ni.requests@ == oi.requests@.push(p.0) && ni.events == oi.events)))
                    && final(self).spec_protocol() == old(self).spec_protocol()))
                &&& (!(name@ == "description".spec_bytes()) && !((name@ == "event".spec_bytes()
                    && p.1) || (name@ == "request".spec_bytes() && !p.1)) ==> r is Err)
            },
            old(self).spec_cur_enum() matches Some(e) ==> (old(self).spec_cur_callable()
                is None ==> {
                &&& (name@ == "description".spec_bytes() ==> r == Ok::<bool, ScanError>(true)
                    && *final(self) == *old(self))
                &&& (name@ == "enum".spec_bytes() ==> (r == Ok::<bool, ScanError>(true) && final(self).spec_cur_enum() is None && (old(self).spec_cur_interface() matches Some(oi)
                    && (final(self).spec_cur_interface() matches Some(ni) && ni.name == oi.name
                    && ni.version == oi.version && ni.requests == oi.requests && ni.events
                    == oi.events && ni.enums@ == oi.enums@.push(e))) && final(self).spec_protocol() == old(self).spec_protocol()))
                &&& (!(name@ == "description".spec_bytes()) && !(name@ == "enum".spec_bytes())
                    ==> r is Err)
            }),
            old(self).spec_cur_interface() matches Some(oi) ==> (old(self).spec_cur_callable()
                is None && old(self).spec_cur_enum() is None ==> {
                &&& (name@ == "description".spec_bytes() ==> r == Ok::<bool, ScanError>(true)
                    && *final(self) == *old(self))
                &&& (name@ == "interface".spec_bytes() ==> (r == Ok::<bool, ScanError>(true)
                    && final(self).spec_cur_interface() is None && (old(self).spec_protocol() matches Some(
                    op,
                ) && (final(self).spec_protocol() matches Some(np) && np.name == op.name
                    && np.interfaces@ == op.interfaces@.push(oi)))))
                &&& (!(name@ == "description".spec_bytes()) && !(name@
                    == "interface".spec_bytes()) ==> r is Err)
            }),
            old(self).spec_cur_callable() is None && old(self).spec_cur_enum() is None && old(
                self,
            ).spec_cur_interface() is None ==> {
                &&& (name@ == "copyright".spec_bytes() ==> r == Ok::<bool, ScanError>(true)
                    && *final(self) == *old(self))
                &&& (name@ == "protocol".spec_bytes() ==> r == Ok::<bool, ScanError>(false)
                    && *final(self) == *old(self))
                &&& (!(name@ == "copyright".spec_bytes()) && !(name@ == "protocol".spec_bytes())
                    ==> r is Err)
            },
    {
        proof {
            lemma_tag_names_distinct();
        }
        if self.cur_callable.is_some() {
            if name_is(name, "description") {
                Ok(true)
            } else if name_is(name, "event") || name_is(name, "request") {
                let expect_event = name_is(name, "event");
                let kind_matches = match &self.cur_callable {
                    Some(p) => p.1 == expect_event,
                    None => false,
                };
                if !kind_matches {
                    return Err(ScanError::UnexpectedTag);
                }
                let (callable, is_event) = match self.cur_callable.take() {
                    Some(p) => p,
                    None => {
                        proof {
                            assert(false);
                        }
                        return Err(ScanError::UnexpectedTag);
                    },
                };
                match &mut self.cur_interface {
                    Some(interface) => {
                        if is_event {
                            interface.events.push(callable);
                        } else {
                            interface.requests.push(callable);
                        }
                        Ok(true)
                    },
                    None => {
                        proof {
                            assert(false);
                        }
                        Err(ScanError::UnexpectedTag)
                    },
                }
            } else {
                Err(ScanError::UnexpectedTag)
            }
        } else if self.cur_enum.is_some() {
            if name_is(name, "description") {
                Ok(true)
            } else if name_is(name, "enum") {
                let enum_def = match self.cur_enum.take() {
                    Some(e) => e,
                    None => {
                        proof {
                            assert(false);
                        }
                        return Err(ScanError::UnexpectedTag);
                    },
                };
                match &mut self.cur_interface {
                    Some(interface) => {
                        interface.enums.push(enum_def);
                        Ok(true)
                    },
                    None => {
                        proof {
                            assert(false);
                        }
                        Err(ScanError::UnexpectedTag)
                    },
                }
            } else {
                Err(ScanError::UnexpectedTag)
            }
        } else if self.cur_interface.is_some() {
            if name_is(name, "description") {
                Ok(true)
            } else if name_is(name, "interface") {
                let interface = match self.cur_interface.take() {
                    Some(i) => i,
                    None => {
                        proof {
                            assert(false);
                        }
                        return Err(ScanError::UnexpectedTag);
                    },
                };
                match &mut self.protocol {
                    Some(protocol) => {
                        protocol.interfaces.push(interface);
                        Ok(true)
                    },
                    None => {
                        proof {
                            assert(false);
                        }
                        Err(ScanError::UnexpectedTag)
                    },
                }
            } else {
                Err(ScanError::UnexpectedTag)
            }
        } else {
            if name_is(name, "copyright") {
                Ok(true)
            } else if name_is(name, "protocol") {
                Ok(false)
            } else {
                Err(ScanError::UnexpectedTag)
            }
        }
    }

    /// Handle a self-closing tag: append an `<arg>` to the open
    /// request or event, or an `<entry>` to the open enum.
    fn handle_empty(&mut self, name: &Vec<u8>, attrs: &Vec<(Vec<u8>, Vec<u8>)>) -> (r: Result<
        bool,
        ScanError,
    >)
        requires
            old(self).wf(),
            old(self).has_protocol(),
        ensures
            final(self).wf(),
            final(self).has_protocol(),
            r is Ok ==> r == Ok::<bool, ScanError>(true),
            r is Err ==> *final(self) == *old(self),
            old(self).spec_cur_callable() matches Some(p) ==> {
                &&& (name@ == "arg".spec_bytes() ==> ((r is Ok <==> spec_arg_accepted(attrs@))
                    && (r is Ok ==> (final(self).spec_cur_callable() matches Some(np) && np.1
                    == p.1 && np.0.name == p.0.name && np.0.args@.len() == p.0.args@.len() + 1
                    && np.0.args@.take(p.0.args@.len() as int) == p.0.args@ && spec_arg_ok(
                    np.0.args@.last(),
                    old(self).spec_cur_interface()->0.name@,
                    attrs@,
                ) && final(self).spec_cur_interface() == old(self).spec_cur_interface()
                    && final(self).spec_protocol() == old(self).spec_protocol()))))
                &&& (name@ == "description".spec_bytes() ==> r == Ok::<bool, ScanError>(true)
                    && *final(self) == *old(self))
                &&& (!(name@ == "arg".spec_bytes()) && !(name@ == "description".spec_bytes())
                    ==> r is Err)
            },
            old(self).spec_cur_enum() matches Some(e) ==> (old(self).spec_cur_callable()
                is None ==> {
                &&& (name@ == "entry".spec_bytes() ==> ((r is Ok <==> (spec_find_attr(
                    attrs@,
                    "name".spec_bytes(),
                ) is Some && (match spec_find_attr(attrs@, "value".spec_bytes()) {
                    Some(v) => spec_entry_val(v) is Some,
                    None => false,
                }))) && (r is Ok ==> (final(self).spec_cur_enum() matches Some(ne) && ne.name
                    == e.name && ne.entries@.len() == e.entries@.len() + 1 && ne.entries@.take(
                    e.entries@.len() as int,
                ) == e.entries@ && spec_find_attr(attrs@, "name".spec_bytes()) == Some(
                    ne.entries@.last().0@,
                ) && (match spec_find_attr(attrs@, "value".spec_bytes()) {
                    Some(v) => spec_entry_val(v) == Some(ne.entries@.last().1),
                    None => false,
                }) && final(self).spec_cur_interface() == old(self).spec_cur_interface()
                    && final(self).spec_protocol() == old(self).spec_protocol()))))
                &&& (!(name@ == "entry".spec_bytes()) ==> r is Err)
            }),
            old(self).spec_cur_callable() is None && old(self).spec_cur_enum() is None ==> r
                is Err,
    {
        proof {
            lemma_tag_names_distinct();
        }
        if self.cur_callable.is_some() {
            if name_is(name, "arg") {
                let iface_name: Vec<u8> = match &self.cur_interface {
                    Some(interface) => {
                        let mut out: Vec<u8> = Vec::new();
                        out.extend_from_slice(interface.name.as_slice());
                        proof {
                            assert(out@ =~= interface.name@);
                        }
                        out
                    },
                    None => {
                        proof {
                            assert(false);
                        }
                        return Err(ScanError::UnexpectedTag);
                    },
                };
                let arg = match ProtocolParser::create_arg(&iface_name, attrs) {
                    Ok(a) => a,
                    Err(e) => {
                        return Err(e);
                    },
                };
                match &mut self.cur_callable {
                    Some(pair) => {
                        let ghost args0 = pair.0.args@;
                        pair.0.args.push(arg);
                        proof {
                            assert(pair.0.args@.take(args0.len() as int) =~= args0);
                        }
                        Ok(true)
                    },
                    None => {
                        proof {
                            assert(false);
                        }
                        Err(ScanError::UnexpectedTag)
                    },
                }
            } else if name_is(name, "description") {
                Ok(true)
            } else {
                Err(ScanError::UnexpectedTag)
            }
        } else if self.cur_enum.is_some() {
            if name_is(name, "entry") {
                let entry = match ProtocolParser::create_enum_entry(attrs) {
                    Ok(e) => e,
                    Err(e) => {
                        return Err(e);
                    },
                };
                match &mut self.cur_enum {
                    Some(enum_def) => {
                        let ghost entries0 = enum_def.entries@;
                        enum_def.entries.push(entry);
                        proof {
                            assert(enum_def.entries@.take(entries0.len() as int) =~= entries0);
                        }
                        Ok(true)
                    },
                    None => {
                        proof {
                            assert(false);
                        }
                        Err(ScanError::UnexpectedTag)
                    },
                }
            } else {
                Err(ScanError::UnexpectedTag)
            }
        } else {
            Err(ScanError::UnexpectedTag)
        }
    }

    /// The scanner has returned to the root with the document closed.
    pub closed spec fn ready(&self) -> bool {
        &&& self.protocol is Some
        &&& self.cur_interface is None
        &&& self.cur_enum is None
        &&& self.cur_callable is None
    }

    /// Feed one XML event. `Ok(true)` asks for the next event;
    /// `Ok(false)` means the protocol root closed and the model can be
    /// taken with [`ProtocolParser::finish`].
    ///
    /// Each accepted tag moves the model exactly one step: a start tag
    /// opens the position it names, an end tag closes the innermost
    /// one and pushes what it accumulated onto its parent, a
    /// self-closing tag appends one argument or enum entry, and a tag
    /// the grammar does not allow here is an error that changes
    /// nothing.
    pub fn handle_event(&mut self, ev: &XmlEvent) -> (r: Result<bool, ScanError>)
        requires
            old(self).wf(),
        ensures
            final(self).wf(),
            old(self).has_protocol() ==> final(self).has_protocol(),
            r == Ok::<bool, ScanError>(false) ==> final(self).ready(),
            r is Err ==> *final(self) == *old(self),
            ev is Eof ==> r == Err::<bool, ScanError>(ScanError::UnexpectedEof),
            !old(self).has_protocol() ==> (match ev {
                XmlEvent::Start { name, attrs } => {
                    &&& (name@ == "protocol".spec_bytes() ==> ((r is Ok <==> spec_find_attr(
                        attrs@,
                        "name".spec_bytes(),
                    ) is Some) && (r is Ok ==> r == Ok::<bool, ScanError>(true) && (
                    final(self).spec_protocol() matches Some(p) && spec_find_attr(
                        attrs@,
                        "name".spec_bytes(),
                    ) == Some(p.name@) && p.interfaces@ == Seq::<InterfaceDef>::empty()))))
                    &&& (!(name@ == "protocol".spec_bytes()) ==> r is Err)
                },
                _ => r is Err,
            }),
            old(self).has_protocol() && (ev matches XmlEvent::Start { name, attrs }) ==> {
                let name = ev->Start_name;
                let attrs = ev->Start_attrs;
                &&& (old(self).spec_cur_callable() is Some || old(self).spec_cur_enum() is Some
                    ==> (*final(self) == *old(self) && (r is Ok <==> name@
                    == "description".spec_bytes())))
                &&& (old(self).spec_cur_callable() is None && old(self).spec_cur_enum() is None
                    && old(self).spec_cur_interface() is Some ==> {
                    &&& (r is Ok <==> (name@ == "description".spec_bytes() || ((name@
                        == "event".spec_bytes() || name@ == "request".spec_bytes() || name@
                        == "enum".spec_bytes()) && spec_find_attr(attrs@, "name".spec_bytes())
                        is Some)))
                    &&& (name@ == "description".spec_bytes() ==> *final(self) == *old(self))
                    &&& ((name@ == "event".spec_bytes() || name@ == "request".spec_bytes()) && r
                        is Ok ==> (final(self).spec_cur_callable() matches Some(p) && p.1 == (
                    name@ == "event".spec_bytes()) && spec_find_attr(
                        attrs@,
                        "name".spec_bytes(),
                    ) == Some(p.0.name@) && p.0.args@ == Seq::<Argument>::empty() && final(self).spec_cur_interface() == old(self).spec_cur_interface() && final(self).spec_protocol() == old(self).spec_protocol() && final(self).spec_cur_enum()
                        is None))
                    &&& (name@ == "enum".spec_bytes() && r is Ok ==> (final(self).spec_cur_enum() matches Some(
                        e,
                    ) && spec_find_attr(attrs@, "name".spec_bytes()) == Some(e.name@)
                        && e.entries@ == Seq::<(Vec<u8>, u32)>::empty() && final(self).spec_cur_interface() == old(self).spec_cur_interface() && final(self).spec_protocol() == old(self).spec_protocol() && final(self).spec_cur_callable()
                        is None))
                })
                &&& (old(self).spec_cur_callable() is None && old(self).spec_cur_enum() is None
                    && old(self).spec_cur_interface() is None ==> {
                    &&& (r is Ok <==> (name@ == "copyright".spec_bytes() || (name@
                        == "interface".spec_bytes() && spec_find_attr(
                        attrs@,
                        "name".spec_bytes(),
                    ) is Some && (match spec_find_attr(attrs@, "version".spec_bytes()) {
                        Some(v) => v.len() > 0 && spec_all_dec(v) && spec_dec_val(v)
                            <= u32::MAX,
                        None => false,
                    }))))
                    &&& (name@ == "copyright".spec_bytes() ==> *final(self) == *old(self))
                    &&& (name@ == "interface".spec_bytes() && r is Ok ==> (final(self).spec_cur_interface() matches Some(
                        i,
                    ) && spec_find_attr(attrs@, "name".spec_bytes()) == Some(i.name@) && (
                    match spec_find_attr(attrs@, "version".spec_bytes()) {
                        Some(v) => i.version == spec_dec_val(v),
                        None => false,
                    }) && i.requests@ == Seq::<Callable>::empty() && i.events@ == Seq::<
                        Callable,
                    >::empty() && i.enums@ == Seq::<EnumDef>::empty() && final(self).spec_protocol() == old(self).spec_protocol() && final(self).spec_cur_enum()
                        is None && final(self).spec_cur_callable() is None))
                })
            },
            old(self).has_protocol() && (ev matches XmlEvent::End { name }) ==> {
                let name = ev->End_name;
                &&& (old(self).spec_cur_callable() matches Some(p) ==> {
                    &&& (name@ == "description".spec_bytes() ==> r == Ok::<bool, ScanError>(
                        true,
                    ) && *final(self) == *old(self))
                    &&& ((name@ == "event".spec_bytes() && p.1) || (name@
                        == "request".spec_bytes() && !p.1) ==> (r == Ok::<bool, ScanError>(true)
                        && final(self).spec_cur_callable() is None && (old(self).spec_cur_interface() matches Some(
                        oi,
                    ) && (final(self).spec_cur_interface() matches Some(ni) && ni.name
                        == oi.name && ni.version == oi.version && ni.enums == oi.enums && (p.1
                        ==> ni.events@ == oi.events@.push(p.0) && ni.requests == oi.requests)
                        && (!p.1 ==> ni.requests@ == oi.requests@.push(p.0) && ni.events
                        == oi.events))) && final(self).spec_protocol() == old(self).spec_protocol()))
                    &&& (!(name@ == "description".spec_bytes()) && !((name@
                        == "event".spec_bytes() && p.1) || (name@ == "request".spec_bytes()
                        && !p.1)) ==> r is Err)
                })
                &&& (old(self).spec_cur_enum() matches Some(e) ==> (old(self).spec_cur_callable() is None ==> {
                    &&& (name@ == "description".spec_bytes() ==> r == Ok::<bool, ScanError>(
                        true,
                    ) && *final(self) == *old(self))
                    &&& (name@ == "enum".spec_bytes() ==> (r == Ok::<bool, ScanError>(true)
                        && final(self).spec_cur_enum() is None && (old(self).spec_cur_interface() matches Some(
                        oi,
                    ) && (final(self).spec_cur_interface() matches Some(ni) && ni.name
                        == oi.name && ni.version == oi.version && ni.requests == oi.requests
                        && ni.events == oi.events && ni.enums@ == oi.enums@.push(e)))
                        && final(self).spec_protocol() == old(self).spec_protocol()))
                    &&& (!(name@ == "description".spec_bytes()) && !(name@
                        == "enum".spec_bytes()) ==> r is Err)
                }))
                &&& (old(self).spec_cur_interface() matches Some(oi) ==> (old(self).spec_cur_callable() is None && old(self).spec_cur_enum() is None ==> {
                    &&& (name@ == "description".spec_bytes() ==> r == Ok::<bool, ScanError>(
                        true,
                    ) && *final(self) == *old(self))
                    &&& (name@ == "interface".spec_bytes() ==> (r == Ok::<bool, ScanError>(true)
                        && final(self).spec_cur_interface() is None && (old(self).spec_protocol() matches Some(
                        op,
                    ) && (final(self).spec_protocol() matches Some(np) && np.name == op.name
                        && np.interfaces@ == op.interfaces@.push(oi)))))
                    &&& (!(name@ == "description".spec_bytes()) && !(name@
                        == "interface".spec_bytes()) ==> r is Err)
                }))
                &&& (old(self).spec_cur_callable() is None && old(self).spec_cur_enum() is None
                    && old(self).spec_cur_interface() is None ==> {
                    &&& (name@ == "copyright".spec_bytes() ==> r == Ok::<bool, ScanError>(true)
                        && *final(self) == *old(self))
                    &&& (name@ == "protocol".spec_bytes() ==> r == Ok::<bool, ScanError>(false)
                        && *final(self) == *old(self))
                    &&& (!(name@ == "copyright".spec_bytes()) && !(name@
                        == "protocol".spec_bytes()) ==> r is Err)
                })
            },
            old(self).has_protocol() && (ev matches XmlEvent::Empty { name, attrs }) ==> {
                let name = ev->Empty_name;
                let attrs = ev->Empty_attrs;
                &&& (old(self).spec_cur_callable() matches Some(p) ==> {
                    &&& (name@ == "arg".spec_bytes() ==> ((r is Ok <==> spec_arg_accepted(
                        attrs@,
                    )) && (r is Ok ==> (final(self).spec_cur_callable() matches Some(np) && np.1
                        == p.1 && np.0.name == p.0.name && np.0.args@.len() == p.0.args@.len()
                        + 1 && np.0.args@.take(p.0.args@.len() as int) == p.0.args@
                        && spec_arg_ok(
                        np.0.args@.last(),
                        old(self).spec_cur_interface()->0.name@,
                        attrs@,
                    ) && final(self).spec_cur_interface() == old(self).spec_cur_interface()
                        && final(self).spec_protocol() == old(self).spec_protocol()))))
                    &&& (name@ == "description".spec_bytes() ==> r == Ok::<bool, ScanError>(
                        true,
                    ) && *final(self) == *old(self))
                    &&& (!(name@ == "arg".spec_bytes()) && !(name@
                        == "description".spec_bytes()) ==> r is Err)
                })
                &&& (old(self).spec_cur_enum() matches Some(e) ==> (old(self).spec_cur_callable() is None ==> {
                    &&& (name@ == "entry".spec_bytes() ==> ((r is Ok <==> (spec_find_attr(
                        attrs@,
                        "name".spec_bytes(),
                    ) is Some && (match spec_find_attr(attrs@, "value".spec_bytes()) {
                        Some(v) => spec_entry_val(v) is Some,
                        None => false,
                    }))) && (r is Ok ==> (final(self).spec_cur_enum() matches Some(ne)
                        && ne.name == e.name && ne.entries@.len() == e.entries@.len() + 1
                        && ne.entries@.take(e.entries@.len() as int) == e.entries@
                        && spec_find_attr(attrs@, "name".spec_bytes()) == Some(
                        ne.entries@.last().0@,
                    ) && (match spec_find_attr(attrs@, "value".spec_bytes()) {
                        Some(v) => spec_entry_val(v) == Some(ne.entries@.last().1),
                        None => false,
                    }) && final(self).spec_cur_interface() == old(self).spec_cur_interface()
                        && final(self).spec_protocol() == old(self).spec_protocol()))))
                    &&& (!(name@ == "entry".spec_bytes()) ==> r is Err)
                }))
                &&& (old(self).spec_cur_callable() is None && old(self).spec_cur_enum() is None
                    ==> r is Err)
            },
    {
        match ev {
            XmlEvent::Start { name, attrs } => {
                if self.protocol.is_none() {
                    if name_is(name, "protocol") {
                        match self.create_protocol(attrs) {
                            Ok(()) => Ok(true),
                            Err(e) => Err(e),
                        }
                    } else {
                        Err(ScanError::UnexpectedTag)
                    }
                } else {
                    self.handle_start(name, attrs)
                }
            },
            XmlEvent::End { name } => {
                if self.protocol.is_none() {
                    Err(ScanError::UnexpectedTag)
                } else {
                    self.handle_end(name)
                }
            },
            XmlEvent::Empty { name, attrs } => {
                if self.protocol.is_none() {
                    Err(ScanError::UnexpectedTag)
                } else {
                    self.handle_empty(name, attrs)
                }
            },
            XmlEvent::Eof => Err(ScanError::UnexpectedEof),
        }
    }
}

} // verus!
