//! Argument (de)serialization for the wire protocol.
//!
//! Every request and event body is a sequence of arguments laid out in
//! 32-bit little-endian words: numbers and object ids take one word,
//! strings and arrays take a length word followed by padded payload words,
//! and file descriptors take no words at all — they travel in the
//! ancillary fd queue.

use vstd::prelude::*;

use crate::buffer::{
    lemma_word_bytes_roundtrip, spec_word_at, spec_word_bytes, spec_word_of_bytes, FdSource,
    MessageBuf, Write, BUF_SIZE, MAX_FDS_OUT,
};
use crate::error::MessageError;

verus! {

/// The wire type of one argument of a request or event.
#[derive(Clone, Copy, Debug, PartialEq, Eq, Structural)]
pub enum ArgType {
    /// Signed 32-bit integer, one word.
    Int,
    /// Unsigned 32-bit integer, one word.
    Uint,
    /// Signed 24.8 fixed-point number, one word, kept in raw form.
    Fixed,
    /// An existing object id, one word; 0 is allowed only when nullable.
    Object { nullable: bool },
    /// A client-allocated object id, one word; 0 only when nullable.
    NewId { nullable: bool },
    /// A length word (counting the terminating NUL; 0 means null when
    /// nullable) followed by the padded bytes.
    Str { nullable: bool },
    /// A length word followed by padded opaque bytes.
    Array,
    /// No words; one descriptor from the ancillary queue.
    Fd,
}

/// The mathematical model of one decoded argument.
pub enum ArgModel {
    Int(i32),
    Uint(u32),
    Fixed(i32),
    Object(u32),
    NewId(u32),
    /// `None` is the null string; the bytes exclude the terminating NUL.
    Str(Option<Seq<u8>>),
    Array(Seq<u8>),
    Fd(i32),
}

/// One decoded argument.
#[derive(Debug)]
pub enum ArgValue {
    Int(i32),
    Uint(u32),
    Fixed(i32),
    Object(u32),
    NewId(u32),
    /// `None` is the null string; the bytes exclude the terminating NUL.
    Str(Option<Vec<u8>>),
    Array(Vec<u8>),
    Fd(i32),
}

impl View for ArgValue {
    type V = ArgModel;

    open spec fn view(&self) -> ArgModel {
        match self {
            ArgValue::Int(x) => ArgModel::Int(*x),
            ArgValue::Uint(x) => ArgModel::Uint(*x),
            ArgValue::Fixed(x) => ArgModel::Fixed(*x),
            ArgValue::Object(x) => ArgModel::Object(*x),
            ArgValue::NewId(x) => ArgModel::NewId(*x),
            ArgValue::Str(o) => ArgModel::Str(
                match o {
                    Some(v) => Some(v@),
                    None => None,
                },
            ),
            ArgValue::Array(v) => ArgModel::Array(v@),
            ArgValue::Fd(x) => ArgModel::Fd(*x),
        }
    }
}

/// The models of a sequence of decoded arguments.
pub open spec fn arg_models(s: Seq<ArgValue>) -> Seq<ArgModel> {
    s.map_values(|a: ArgValue| a@)
}

/// Whether a byte sequence is valid UTF-8.
pub uninterp spec fn is_utf8(b: Seq<u8>) -> bool;

/// Relies on `core::str::from_utf8`: whether a byte sequence is valid
/// UTF-8 depends on the bytes alone, and the empty sequence is valid.
#[verifier::external_body]
pub(crate) fn check_utf8(b: &[u8]) -> (r: bool)
    ensures
        r == is_utf8(b@),
        b@.len() == 0 ==> r,
{
    core::str::from_utf8(b).is_ok()
}

/// The signed value carried by one wire word, in two's complement.
pub open spec fn spec_i32_of_word(w: u32) -> i32 {
    if w < 0x8000_0000 {
        w as i32
    } else {
        (w - 0x1_0000_0000) as i32
    }
}

/// The wire word carrying a signed value, in two's complement.
pub open spec fn spec_word_of_i32(v: i32) -> u32 {
    if v >= 0 {
        v as u32
    } else {
        (v + 0x1_0000_0000) as u32
    }
}

/// The signed value of a wire word.
pub fn i32_of_word(w: u32) -> (r: i32)
    ensures
        r == spec_i32_of_word(w),
{
    if w < 0x8000_0000 {
        w as i32
    } else {
        ((w - 0x8000_0000) as i32) - 0x7fff_ffff - 1
    }
}

/// The wire word of a signed value.
pub fn word_of_i32(v: i32) -> (r: u32)
    ensures
        r == spec_word_of_i32(v),
{
    if v >= 0 {
        v as u32
    } else {
        ((v + 0x7fff_ffff + 1) as u32) + 0x8000_0000
    }
}

/// Encoding a signed value and reading it back is the identity.
pub proof fn lemma_i32_word_roundtrip(v: i32)
    ensures
        spec_i32_of_word(spec_word_of_i32(v)) == v,
{
}

/// `n` rounded up to the next multiple of four.
pub open spec fn spec_padded(n: int) -> int {
    ((n + 3) / 4) * 4
}

pub proof fn lemma_padded_bounds(n: int)
    requires
        0 <= n,
    ensures
        n <= spec_padded(n) < n + 4,
        spec_padded(n) % 4 == 0,
{
    assert(n <= ((n + 3) / 4) * 4 < n + 4 && (((n + 3) / 4) * 4) % 4 == 0) by (nonlinear_arith)
        requires
            0 <= n,
    ;
}

/// A sequence of `n` zero bytes.
pub open spec fn spec_zeros(n: int) -> Seq<u8> {
    Seq::<u8>::new(n as nat, |i: int| 0u8)
}

/// The wire bytes of one argument.
pub open spec fn spec_encode_arg(v: ArgModel) -> Seq<u8> {
    match v {
        ArgModel::Int(x) => spec_word_bytes(spec_word_of_i32(x)),
        ArgModel::Uint(x) => spec_word_bytes(x),
        ArgModel::Fixed(x) => spec_word_bytes(spec_word_of_i32(x)),
        ArgModel::Object(x) => spec_word_bytes(x),
        ArgModel::NewId(x) => spec_word_bytes(x),
        ArgModel::Str(o) => match o {
            None => spec_word_bytes(0),
            Some(s) => spec_word_bytes((s.len() as int + 1) as u32) + s + seq![0u8] + spec_zeros(
                spec_padded(s.len() as int + 1) - (s.len() as int + 1),
            ),
        },
        ArgModel::Array(a) => spec_word_bytes(a.len() as u32) + a + spec_zeros(
            spec_padded(a.len() as int) - a.len() as int,
        ),
        ArgModel::Fd(_) => Seq::<u8>::empty(),
    }
}

/// The wire bytes of an argument list, in order.
pub open spec fn spec_encode_args(vs: Seq<ArgModel>) -> Seq<u8>
    decreases vs.len(),
{
    if vs.len() == 0 {
        Seq::<u8>::empty()
    } else {
        spec_encode_arg(vs[0]) + spec_encode_args(vs.drop_first())
    }
}

/// The descriptors an argument list stages, in order.
pub open spec fn spec_arg_fds(vs: Seq<ArgModel>) -> Seq<i32>
    decreases vs.len(),
{
    if vs.len() == 0 {
        Seq::<i32>::empty()
    } else {
        (match vs[0] {
            ArgModel::Fd(fd) => seq![fd],
            _ => Seq::<i32>::empty(),
        }) + spec_arg_fds(vs.drop_first())
    }
}

/// Whether a decoded argument fits a wire type.
///
/// This is exactly what decoding validates: the constructor agrees, null
/// ids and strings appear only where allowed, and string bytes are valid
/// UTF-8.
pub open spec fn arg_matches(v: ArgModel, t: ArgType) -> bool {
    match t {
        ArgType::Int => v is Int,
        ArgType::Uint => v is Uint,
        ArgType::Fixed => v is Fixed,
        ArgType::Object { nullable } => v matches ArgModel::Object(x) && (nullable || x != 0),
        ArgType::NewId { nullable } => v matches ArgModel::NewId(x) && (nullable || x != 0),
        ArgType::Str { nullable } => v matches ArgModel::Str(o) && (match o {
            None => nullable,
            Some(s) => is_utf8(s),
        }),
        ArgType::Array => v is Array,
        ArgType::Fd => v is Fd,
    }
}

/// Whether every argument of a list fits the corresponding wire type.
pub open spec fn args_match(vs: Seq<ArgModel>, sig: Seq<ArgType>) -> bool {
    vs.len() == sig.len() && forall|i: int| 0 <= i < vs.len() ==> arg_matches(vs[i], #[trigger] sig[i])
}

/// Decode one argument of type `t` from `p` at byte offset `i`, with fd
/// queue `fds` of which `f` are already consumed.
///
/// Returns the argument, the next byte offset and the next fd offset, or
/// `None` on any malformation: a truncated word, a null id or string where
/// not allowed, string bytes that are not UTF-8, a length that exceeds the
/// remaining payload, or a missing descriptor.
pub open spec fn spec_decode_one(t: ArgType, p: Seq<u8>, i: int, fds: Seq<i32>, f: int) -> Option<
    (ArgModel, int, int),
> {
    match t {
        ArgType::Int => if i + 4 <= p.len() {
            Some((ArgModel::Int(spec_i32_of_word(spec_word_at(p, i))), i + 4, f))
        } else {
            None
        },
        ArgType::Uint => if i + 4 <= p.len() {
            Some((ArgModel::Uint(spec_word_at(p, i)), i + 4, f))
        } else {
            None
        },
        ArgType::Fixed => if i + 4 <= p.len() {
            Some((ArgModel::Fixed(spec_i32_of_word(spec_word_at(p, i))), i + 4, f))
        } else {
            None
        },
        ArgType::Object { nullable } => if i + 4 <= p.len() {
            let w = spec_word_at(p, i);
            if w == 0 && !nullable {
                None
            } else {
                Some((ArgModel::Object(w), i + 4, f))
            }
        } else {
            None
        },
        ArgType::NewId { nullable } => if i + 4 <= p.len() {
            let w = spec_word_at(p, i);
            if w == 0 && !nullable {
                None
            } else {
                Some((ArgModel::NewId(w), i + 4, f))
            }
        } else {
            None
        },
        ArgType::Str { nullable } => if i + 4 <= p.len() {
            let l = spec_word_at(p, i) as int;
            if l == 0 {
                if nullable {
                    Some((ArgModel::Str(None), i + 4, f))
                } else {
                    None
                }
            } else {
                let need = spec_padded(l);
                if i + 4 + need <= p.len() {
                    let s = p.subrange(i + 4, i + 4 + l - 1);
                    if is_utf8(s) {
                        Some((ArgModel::Str(Some(s)), i + 4 + need, f))
                    } else {
                        None
                    }
                } else {
                    None
                }
            }
        } else {
            None
        },
        ArgType::Array => if i + 4 <= p.len() {
            let l = spec_word_at(p, i) as int;
            let need = spec_padded(l);
            if i + 4 + need <= p.len() {
                Some((ArgModel::Array(p.subrange(i + 4, i + 4 + l)), i + 4 + need, f))
            } else {
                None
            }
        } else {
            None
        },
        ArgType::Fd => if f < fds.len() {
            Some((ArgModel::Fd(fds[f]), i, f + 1))
        } else {
            None
        },
    }
}

/// Decode the arguments of signature `sig` from `p` starting at byte
/// offset `i` and fd offset `f`.
pub open spec fn spec_decode_args(
    sig: Seq<ArgType>,
    p: Seq<u8>,
    i: int,
    fds: Seq<i32>,
    f: int,
) -> Option<(Seq<ArgModel>, int, int)>
    decreases sig.len(),
{
    if sig.len() == 0 {
        Some((Seq::<ArgModel>::empty(), i, f))
    } else {
        match spec_decode_one(sig[0], p, i, fds, f) {
            None => None,
            Some((v, i2, f2)) => match spec_decode_args(sig.drop_first(), p, i2, fds, f2) {
                None => None,
                Some((vs, i3, f3)) => Some((seq![v] + vs, i3, f3)),
            },
        }
    }
}

/// Decode a whole argument payload: every byte of `p` must be consumed.
///
/// Returns the arguments and how many descriptors were consumed, or `None`
/// where the payload is malformed (the decoder reports `BadFormat`).
pub open spec fn spec_decode_frame(sig: Seq<ArgType>, p: Seq<u8>, fds: Seq<i32>) -> Option<
    (Seq<ArgModel>, int),
> {
    match spec_decode_args(sig, p, 0, fds, 0) {
        None => None,
        Some((vs, i, f)) => if i == p.len() {
            Some((vs, f))
        } else {
            None
        },
    }
}

/// Prefix composition of decode results.
pub open spec fn decode_compose(
    prefix: Seq<ArgModel>,
    rest: Option<(Seq<ArgModel>, int, int)>,
) -> Option<(Seq<ArgModel>, int, int)> {
    match rest {
        None => None,
        Some((vs, i, f)) => Some((prefix + vs, i, f)),
    }
}

/// The word at byte offset `i` of a payload vector, read little-endian.
pub fn word_at_vec(p: &Vec<u8>, i: usize) -> (r: u32)
    requires
        i + 4 <= p@.len(),
    ensures
        r == spec_word_at(p@, i as int),
{
    let n = p.len();
    let b0 = p[i];
    let b1 = p[i + 1];
    let b2 = p[i + 2];
    let b3 = p[i + 3];
    (b0 as u32) + (b1 as u32) * 256 + (b2 as u32) * 65536 + (b3 as u32) * 16777216
}

/// Copy `count` bytes of `p` starting at `start`.
fn copy_bytes(p: &Vec<u8>, start: usize, count: usize) -> (r: Vec<u8>)
    requires
        start + count <= p@.len(),
    ensures
        r@ == p@.subrange(start as int, start as int + count as int),
{
    let n = p.len();
    let mut r: Vec<u8> = Vec::new();
    let mut j: usize = 0;
    while j < count
        invariant
            j <= count,
            start + count <= n,
            n == p@.len(),
            r@ == p@.subrange(start as int, start as int + j as int),
        decreases count - j,
    {
        r.push(p[start + j]);
        assert(r@ =~= p@.subrange(start as int, start as int + j as int + 1));
        j = j + 1;
    }
    r
}

/// Decode the argument payload of one request per its signature.
///
/// Consumes descriptors from the front of `fds` for each `Fd` argument,
/// in argument order.  Every payload byte must be consumed: a shorter or
/// longer argument list, like any other malformation, is `BadFormat`.
pub fn decode_args(sig: &Vec<ArgType>, payload: &Vec<u8>, fds: &mut FdSource) -> (r: Result<
    Vec<ArgValue>,
    MessageError,
>)
    ensures
        ({
            let res = spec_decode_frame(sig@, payload@, old(fds).fds());
            match r {
                Ok(vals) => res matches Some((vs, nf)) && arg_models(vals@) == vs
                    && final(fds).fds() == old(fds).fds().skip(nf),
                Err(e) => res is None && e == MessageError::BadFormat && (exists|ff: int|
                    0 <= ff <= old(fds).fds().len() && final(fds).fds() == old(fds).fds().skip(
                        ff,
                    )),
            }
        }),
{
    let ghost fds0: Seq<i32> = fds.fds();
    let ghost full: Option<(Seq<ArgModel>, int, int)> = spec_decode_args(
        sig@,
        payload@,
        0,
        fds0,
        0,
    );
    let flen0 = fds.len();
    let mut vals: Vec<ArgValue> = Vec::new();
    let mut off: usize = 0;
    let mut f: usize = 0;
    let mut k: usize = 0;
    let plen = payload.len();
    proof {
        assert(sig@.skip(0) =~= sig@);
        assert(fds0.skip(0) =~= fds0);
        assert(arg_models(vals@) =~= Seq::<ArgModel>::empty());
        if full is Some {
            assert(Seq::<ArgModel>::empty() + full->Some_0.0 =~= full->Some_0.0);
        }
    }
    while k < sig.len()
        invariant
            k <= sig@.len(),
            off <= payload@.len(),
            plen == payload@.len(),
            f <= fds0.len(),
            fds0 == old(fds).fds(),
            fds0.len() == flen0 as int,
            fds.fds() == fds0.skip(f as int),
            full == decode_compose(
                arg_models(vals@),
                spec_decode_args(sig@.skip(k as int), payload@, off as int, fds0, f as int),
            ),
            full == spec_decode_args(sig@, payload@, 0, fds0, 0),
        decreases sig@.len() - k,
    {
        let ghost vals_pre = arg_models(vals@);
        let ghost rest_pre = spec_decode_args(
            sig@.skip(k as int),
            payload@,
            off as int,
            fds0,
            f as int,
        );
        proof {
            assert(sig@.skip(k as int)[0] == sig@[k as int]);
            assert(sig@.skip(k as int).drop_first() =~= sig@.skip(k as int + 1));
        }
        let t = sig[k];
        let ghost one = spec_decode_one(t, payload@, off as int, fds0, f as int);
        // Decode one argument of type `t` at `off`, or fail.
        let ok: bool;
        match t {
            ArgType::Int => {
                if plen - off >= 4 {
                    vals.push(ArgValue::Int(i32_of_word(word_at_vec(payload, off))));
                    off = off + 4;
                    ok = true;
                } else {
                    ok = false;
                }
            },
            ArgType::Uint => {
                if plen - off >= 4 {
                    vals.push(ArgValue::Uint(word_at_vec(payload, off)));
                    off = off + 4;
                    ok = true;
                } else {
                    ok = false;
                }
            },
            ArgType::Fixed => {
                if plen - off >= 4 {
                    vals.push(ArgValue::Fixed(i32_of_word(word_at_vec(payload, off))));
                    off = off + 4;
                    ok = true;
                } else {
                    ok = false;
                }
            },
            ArgType::Object { nullable } => {
                if plen - off >= 4 {
                    let w = word_at_vec(payload, off);
                    if w == 0 && !nullable {
                        ok = false;
                    } else {
                        vals.push(ArgValue::Object(w));
                        off = off + 4;
                        ok = true;
                    }
                } else {
                    ok = false;
                }
            },
            ArgType::NewId { nullable } => {
                if plen - off >= 4 {
                    let w = word_at_vec(payload, off);
                    if w == 0 && !nullable {
                        ok = false;
                    } else {
                        vals.push(ArgValue::NewId(w));
                        off = off + 4;
                        ok = true;
                    }
                } else {
                    ok = false;
                }
            },
            ArgType::Str { nullable } => {
                if plen - off >= 4 {
                    let l_w = word_at_vec(payload, off);
                    if l_w == 0 {
                        if nullable {
                            vals.push(ArgValue::Str(None));
                            off = off + 4;
                            ok = true;
                        } else {
                            ok = false;
                        }
                    } else {
                        let rem = plen - (off + 4);
                        let l = l_w as usize;
                        if l > rem {
                            proof {
                                lemma_padded_bounds(l as int);
                            }
                            ok = false;
                        } else {
                            let need = ((l + 3) / 4) * 4;
                            proof {
                                lemma_padded_bounds(l as int);
                            }
                            if need > rem {
                                ok = false;
                            } else {
                                let s = copy_bytes(payload, off + 4, l - 1);
                                if check_utf8(s.as_slice()) {
                                    vals.push(ArgValue::Str(Some(s)));
                                    off = off + 4 + need;
                                    ok = true;
                                } else {
                                    ok = false;
                                }
                            }
                        }
                    }
                } else {
                    ok = false;
                }
            },
            ArgType::Array => {
                if plen - off >= 4 {
                    let l_w = word_at_vec(payload, off);
                    let rem = plen - (off + 4);
                    let l = l_w as usize;
                    if l > rem {
                        proof {
                            lemma_padded_bounds(l as int);
                        }
                        ok = false;
                    } else {
                        let need = ((l + 3) / 4) * 4;
                        proof {
                            lemma_padded_bounds(l as int);
                        }
                        if need > rem {
                            ok = false;
                        } else {
                            let a = copy_bytes(payload, off + 4, l);
                            vals.push(ArgValue::Array(a));
                            off = off + 4 + need;
                            ok = true;
                        }
                    }
                } else {
                    ok = false;
                }
            },
            ArgType::Fd => {
                match fds.pop() {
                    Some(fd) => {
                        proof {
                            assert(fds0.skip(f as int).drop_first() =~= fds0.skip(f as int + 1));
                        }
                        vals.push(ArgValue::Fd(fd));
                        f = f + 1;
                        ok = true;
                    },
                    None => {
                        ok = false;
                    },
                }
            },
        }
        if !ok {
            proof {
                assert(one is None);
                assert(rest_pre is None);
                assert(full is None);
                assert(exists|ff: int|
                    0 <= ff <= fds0.len() && fds.fds() == fds0.skip(ff)) by {
                    assert(0 <= f as int <= fds0.len() && fds.fds() == fds0.skip(f as int));
                }
            }
            return Err(MessageError::BadFormat);
        }
        proof {
            let v = one->Some_0.0;
            assert(arg_models(vals@) =~= vals_pre.push(v));
            assert(rest_pre == decode_compose(
                seq![v],
                spec_decode_args(sig@.skip(k as int + 1), payload@, off as int, fds0, f as int),
            ));
            let rest_post = spec_decode_args(
                sig@.skip(k as int + 1),
                payload@,
                off as int,
                fds0,
                f as int,
            );
            if rest_post is Some {
                assert(vals_pre + (seq![v] + rest_post->Some_0.0) =~= vals_pre.push(v)
                    + rest_post->Some_0.0);
            }
        }
        k = k + 1;
    }
    proof {
        assert(sig@.skip(sig@.len() as int) =~= Seq::<ArgType>::empty());
        assert(arg_models(vals@) + Seq::<ArgModel>::empty() =~= arg_models(vals@));
    }
    if off == plen {
        Ok(vals)
    } else {
        proof {
            assert(exists|ff: int| 0 <= ff <= fds0.len() && fds.fds() == fds0.skip(ff)) by {
                assert(0 <= f as int <= fds0.len() && fds.fds() == fds0.skip(f as int));
            }
        }
        Err(MessageError::BadFormat)
    }
}

/// Splitting an argument list splits its encoding and its fd list.
pub proof fn lemma_encode_args_split(vs: Seq<ArgModel>, k: int)
    requires
        0 <= k <= vs.len(),
    ensures
        spec_encode_args(vs) == spec_encode_args(vs.take(k)) + spec_encode_args(vs.skip(k)),
        spec_arg_fds(vs) == spec_arg_fds(vs.take(k)) + spec_arg_fds(vs.skip(k)),
    decreases k,
{
    if k == 0 {
        assert(vs.take(0) =~= Seq::<ArgModel>::empty());
        assert(vs.skip(0) =~= vs);
        assert(Seq::<u8>::empty() + spec_encode_args(vs) =~= spec_encode_args(vs));
        assert(Seq::<i32>::empty() + spec_arg_fds(vs) =~= spec_arg_fds(vs));
    } else {
        let df = vs.drop_first();
        lemma_encode_args_split(df, k - 1);
        assert(vs.take(k)[0] == vs[0]);
        assert(vs.take(k).drop_first() =~= df.take(k - 1));
        assert(vs.skip(k) =~= df.skip(k - 1));
        assert(spec_encode_arg(vs[0]) + (spec_encode_args(df.take(k - 1)) + spec_encode_args(
            df.skip(k - 1),
        )) =~= (spec_encode_arg(vs[0]) + spec_encode_args(df.take(k - 1))) + spec_encode_args(
            df.skip(k - 1),
        ));
        assert((match vs[0] {
            ArgModel::Fd(fd) => seq![fd],
            _ => Seq::<i32>::empty(),
        }) + (spec_arg_fds(df.take(k - 1)) + spec_arg_fds(df.skip(k - 1))) =~= ((match vs[0] {
            ArgModel::Fd(fd) => seq![fd],
            _ => Seq::<i32>::empty(),
        }) + spec_arg_fds(df.take(k - 1))) + spec_arg_fds(df.skip(k - 1)));
    }
}

/// The fds an argument list stages are at most one per argument.
pub proof fn lemma_arg_fds_len(vs: Seq<ArgModel>)
    ensures
        spec_arg_fds(vs).len() <= vs.len(),
    decreases vs.len(),
{
    if vs.len() > 0 {
        lemma_arg_fds_len(vs.drop_first());
    }
}

/// The message header word: the frame size in the high 16 bits, the
/// opcode in the low 16.
pub open spec fn spec_header(opcode: u16, size: int) -> u32 {
    (size * 65536 + opcode) as u32
}

/// The complete wire frame for a message: object id word, header word,
/// then the encoded arguments.
pub open spec fn spec_frame_bytes(object_id: u32, opcode: u16, vs: Seq<ArgModel>) -> Seq<u8> {
    spec_word_bytes(object_id) + spec_word_bytes(
        spec_header(opcode, 8 + spec_encode_args(vs).len() as int),
    ) + spec_encode_args(vs)
}


/// The encoded size of one argument, or `None` where it alone would
/// overflow the buffer capacity.
fn arg_wire_size(arg: &ArgValue) -> (r: Option<usize>)
    ensures
        r matches Some(sz) ==> sz as int == spec_encode_arg(arg@).len(),
        r is None ==> spec_encode_arg(arg@).len() > BUF_SIZE,
{
    match arg {
        ArgValue::Int(_) => Some(4),
        ArgValue::Uint(_) => Some(4),
        ArgValue::Fixed(_) => Some(4),
        ArgValue::Object(_) => Some(4),
        ArgValue::NewId(_) => Some(4),
        ArgValue::Str(o) => match o {
            None => Some(4),
            Some(sv) => {
                proof {
                    lemma_padded_bounds(sv@.len() as int + 1);
                }
                if sv.len() >= BUF_SIZE {
                    None
                } else {
                    Some(4 + (((sv.len() + 1) + 3) / 4) * 4)
                }
            },
        },
        ArgValue::Array(av) => {
            proof {
                lemma_padded_bounds(av@.len() as int);
            }
            if av.len() >= BUF_SIZE {
                None
            } else {
                Some(4 + ((av.len() + 3) / 4) * 4)
            }
        },
        ArgValue::Fd(_) => Some(0),
    }
}

/// The fd list one argument stages.
pub open spec fn spec_one_arg_fds(v: ArgModel) -> Seq<i32> {
    match v {
        ArgModel::Fd(fd) => seq![fd],
        _ => Seq::<i32>::empty(),
    }
}

/// Write the wire bytes of one argument, staging its fd if it has one.
fn emit_arg(buf: &mut MessageBuf<Write>, arg: &ArgValue)
    requires
        old(buf).bytes().len() + spec_encode_arg(arg@).len() <= BUF_SIZE,
        arg@ is Fd ==> old(buf).fd_seq().len() < MAX_FDS_OUT,
    ensures
        final(buf).bytes() == old(buf).bytes() + spec_encode_arg(arg@),
        final(buf).fd_seq() == old(buf).fd_seq() + spec_one_arg_fds(arg@),
        final(buf).cap_ok(),
{
    let ghost pre: Seq<u8> = buf.bytes();
    match arg {
        ArgValue::Int(x) => {
            buf.push_word(word_of_i32(*x));
        },
        ArgValue::Uint(x) => {
            buf.push_word(*x);
        },
        ArgValue::Fixed(x) => {
            buf.push_word(word_of_i32(*x));
        },
        ArgValue::Object(x) => {
            buf.push_word(*x);
        },
        ArgValue::NewId(x) => {
            buf.push_word(*x);
        },
        ArgValue::Str(o) => {
            match o {
                None => {
                    buf.push_word(0);
                },
                Some(sv) => {
                    let l = sv.len();
                    proof {
                        lemma_padded_bounds(l as int + 1);
                    }
                    buf.push_word((l + 1) as u32);
                    buf.append_bytes(sv);
                    buf.push_byte(0);
                    let pad = (((l + 1) + 3) / 4) * 4 - (l + 1);
                    let mut j: usize = 0;
                    proof {
                        assert(buf.bytes() =~= pre + spec_word_bytes((l + 1) as u32) + sv@
                            + seq![0u8] + spec_zeros(0));
                    }
                    while j < pad
                        invariant
                            j <= pad,
                            pad < 4,
                            l as int == sv@.len(),
                            pre.len() + 4 + l + 1 + pad <= BUF_SIZE,
                            buf.bytes() == pre + spec_word_bytes((l + 1) as u32) + sv@
                                + seq![0u8] + spec_zeros(j as int),
                            buf.fd_seq() == old(buf).fd_seq(),
                        decreases pad - j,
                    {
                        buf.push_byte(0);
                        proof {
                            assert(buf.bytes() =~= pre + spec_word_bytes((l + 1) as u32) + sv@
                                + seq![0u8] + spec_zeros(j as int + 1));
                        }
                        j = j + 1;
                    }
                    proof {
                        assert(sv@ + seq![0u8] + spec_zeros(pad as int) =~= sv@ + (seq![0u8]
                            + spec_zeros(pad as int)));
                        assert(seq![0u8] + spec_zeros(pad as int) =~= spec_zeros(pad as int + 1));
                        assert(buf.bytes() =~= pre + spec_encode_arg(arg@));
                    }
                },
            }
        },
        ArgValue::Array(av) => {
            let l = av.len();
            proof {
                lemma_padded_bounds(l as int);
            }
            buf.push_word(l as u32);
            buf.append_bytes(av);
            let pad = ((l + 3) / 4) * 4 - l;
            let mut j: usize = 0;
            proof {
                assert(buf.bytes() =~= pre + spec_word_bytes(l as u32) + av@ + spec_zeros(0));
            }
            while j < pad
                invariant
                    j <= pad,
                    pad < 4,
                    l as int == av@.len(),
                    pre.len() + 4 + l + pad <= BUF_SIZE,
                    buf.bytes() == pre + spec_word_bytes(l as u32) + av@ + spec_zeros(j as int),
                    buf.fd_seq() == old(buf).fd_seq(),
                decreases pad - j,
            {
                buf.push_byte(0);
                proof {
                    assert(buf.bytes() =~= pre + spec_word_bytes(l as u32) + av@ + spec_zeros(
                        j as int + 1,
                    ));
                }
                j = j + 1;
            }
            proof {
                assert(buf.bytes() =~= pre + spec_encode_arg(arg@));
            }
        },
        ArgValue::Fd(fd) => {
            let res = buf.push_fd(*fd);
            proof {
                assert(res is Ok);
            }
        },
    }
    proof {
        if !(arg@ is Fd) {
            assert(buf.fd_seq() =~= old(buf).fd_seq() + spec_one_arg_fds(arg@));
        }
    }
}


/// The total encoded byte length of an argument list and how many fds it
/// stages, or `OutOfMemory` where the encoding alone exceeds the buffer
/// capacity.
fn frame_body_size(args: &Vec<ArgValue>) -> (r: Result<(usize, usize), MessageError>)
    ensures
        ({
            let vs = arg_models(args@);
            match r {
                Ok(p) => p.0 as int == spec_encode_args(vs).len() && p.0 <= BUF_SIZE
                    && p.1 as int == spec_arg_fds(vs).len(),
                Err(e) => e == MessageError::OutOfMemory && spec_encode_args(vs).len()
                    > BUF_SIZE,
            }
        }),
{
    let ghost vs: Seq<ArgModel> = arg_models(args@);
    let nargs = args.len();
    let mut body: usize = 0;
    let mut nfds: usize = 0;
    let mut k: usize = 0;
    while k < nargs
        invariant
            k <= nargs,
            nargs == args@.len(),
            vs == arg_models(args@),
            body as int == spec_encode_args(vs.take(k as int)).len(),
            body <= BUF_SIZE,
            nfds as int == spec_arg_fds(vs.take(k as int)).len(),
            nfds <= k,
        decreases nargs - k,
    {
        proof {
            assert(vs[k as int] == args@[k as int]@);
            assert(vs.take(k as int + 1) =~= vs.take(k as int).push(vs[k as int]));
            lemma_encode_args_snoc(vs.take(k as int), vs[k as int]);
            lemma_encode_args_split(vs, k as int + 1);
        }
        let sz: usize;
        match arg_wire_size(&args[k]) {
            Some(v) => { sz = v; },
            None => {
                return Err(MessageError::OutOfMemory);
            },
        }
        let fd_here: usize = match &args[k] {
            ArgValue::Fd(_) => 1,
            _ => 0,
        };
        if sz > BUF_SIZE || body + sz > BUF_SIZE {
            return Err(MessageError::OutOfMemory);
        }
        body = body + sz;
        nfds = nfds + fd_here;
        k = k + 1;
    }
    proof {
        assert(vs.take(nargs as int) =~= vs);
    }
    Ok((body, nfds))
}

/// Serialize one message into the send buffer: object id word, header
/// word `(size << 16) | opcode`, then each argument per the wire layout,
/// staging each `Fd` argument on the buffer's fd queue.
///
/// The write is atomic: it fails with `OutOfMemory`, leaving the buffer
/// untouched, exactly when the frame would overflow the byte capacity or
/// the staged-fd bound.
#[verifier::rlimit(100)]
pub fn emit_message(
    buf: &mut MessageBuf<Write>,
    object_id: u32,
    opcode: u16,
    args: &Vec<ArgValue>,
) -> (r: Result<(), MessageError>)
    requires
        old(buf).cap_ok(),
        old(buf).fds_ok(),
    ensures
        final(buf).cap_ok(),
        final(buf).fds_ok(),
        ({
            let vs = arg_models(args@);
            let body = spec_encode_args(vs);
            let nf = spec_arg_fds(vs);
            if old(buf).bytes().len() + 8 + body.len() <= BUF_SIZE && old(buf).fd_seq().len()
                + nf.len() <= MAX_FDS_OUT {
                r is Ok && final(buf).bytes() == old(buf).bytes() + spec_frame_bytes(
                    object_id,
                    opcode,
                    vs,
                ) && final(buf).fd_seq() == old(buf).fd_seq() + nf
            } else {
                r == Err::<(), MessageError>(MessageError::OutOfMemory) && *final(buf) == *old(
                    buf,
                )
            }
        }),
{
    let ghost vs: Seq<ArgModel> = arg_models(args@);
    let (body, nfds) = match frame_body_size(args) {
        Ok(p) => p,
        Err(e) => {
            return Err(MessageError::OutOfMemory);
        },
    };
    let nargs = args.len();
    proof {
        assert(vs.take(nargs as int) =~= vs);
    }
    // Check both capacity bounds up front so the write is atomic.
    if body > BUF_SIZE - 8 || buf.len() > BUF_SIZE - 8 - body {
        return Err(MessageError::OutOfMemory);
    }
    if nfds > MAX_FDS_OUT - buf.fd_count() {
        return Err(MessageError::OutOfMemory);
    }
    let ghost base: Seq<u8> = buf.bytes();
    let ghost fbase: Seq<i32> = buf.fd_seq();
    let header: u32 = (opcode as u32) + ((8 + body) as u32) * 65536;
    buf.push_word(object_id);
    buf.push_word(header);
    // Second pass: write each argument.
    let mut k: usize = 0;
    while k < nargs
        invariant
            k <= nargs,
            nargs == args@.len(),
            vs == arg_models(args@),
            body as int == spec_encode_args(vs).len(),
            base.len() + 8 + body <= BUF_SIZE,
            fbase.len() + spec_arg_fds(vs).len() <= MAX_FDS_OUT,
            buf.bytes() == base + spec_word_bytes(object_id) + spec_word_bytes(header)
                + spec_encode_args(vs.take(k as int)),
            buf.fd_seq() == fbase + spec_arg_fds(vs.take(k as int)),
        decreases nargs - k,
    {
        proof {
            assert(vs[k as int] == args@[k as int]@);
            assert(vs.take(k as int + 1) =~= vs.take(k as int).push(vs[k as int]));
            lemma_encode_args_snoc(vs.take(k as int), vs[k as int]);
            lemma_encode_args_split(vs, k as int + 1);
            lemma_arg_fds_len(vs.take(k as int));
            if vs[k as int] is Fd {
                assert(spec_arg_fds(vs.take(k as int + 1)).len() <= spec_arg_fds(vs).len()) by {
                    lemma_encode_args_split(vs, k as int + 1);
                }
            }
        }
        emit_arg(buf, &args[k]);
        proof {
            assert(buf.bytes() =~= base + spec_word_bytes(object_id) + spec_word_bytes(header)
                + spec_encode_args(vs.take(k as int + 1)));
            assert(buf.fd_seq() =~= fbase + spec_arg_fds(vs.take(k as int + 1)));
        }
        k = k + 1;
    }
    proof {
        assert(vs.take(nargs as int) =~= vs);
        assert(buf.bytes() =~= base + spec_frame_bytes(object_id, opcode, vs));
    }
    Ok(())
}

/// Appending one argument to a list appends its encoding and its fds.
pub proof fn lemma_encode_args_snoc(vs: Seq<ArgModel>, v: ArgModel)
    ensures
        spec_encode_args(vs.push(v)) == spec_encode_args(vs) + spec_encode_arg(v),
        spec_arg_fds(vs.push(v)) == spec_arg_fds(vs) + (match v {
            ArgModel::Fd(fd) => seq![fd],
            _ => Seq::<i32>::empty(),
        }),
    decreases vs.len(),
{
    if vs.len() == 0 {
        assert(vs.push(v)[0] == v);
        assert(vs.push(v).drop_first() =~= vs);
        assert(spec_encode_arg(v) + Seq::<u8>::empty() =~= spec_encode_arg(v));
        assert(Seq::<u8>::empty() + spec_encode_arg(v) =~= spec_encode_arg(v));
        assert((match v {
            ArgModel::Fd(fd) => seq![fd],
            _ => Seq::<i32>::empty(),
        }) + Seq::<i32>::empty() =~= Seq::<i32>::empty() + (match v {
            ArgModel::Fd(fd) => seq![fd],
            _ => Seq::<i32>::empty(),
        }));
    } else {
        lemma_encode_args_snoc(vs.drop_first(), v);
        assert(vs.push(v)[0] == vs[0]);
        assert(vs.push(v).drop_first() =~= vs.drop_first().push(v));
        assert(spec_encode_arg(vs[0]) + (spec_encode_args(vs.drop_first()) + spec_encode_arg(v))
            =~= (spec_encode_arg(vs[0]) + spec_encode_args(vs.drop_first())) + spec_encode_arg(
            v,
        ));
        assert((match vs[0] {
            ArgModel::Fd(fd) => seq![fd],
            _ => Seq::<i32>::empty(),
        }) + (spec_arg_fds(vs.drop_first()) + (match v {
            ArgModel::Fd(fd) => seq![fd],
            _ => Seq::<i32>::empty(),
        })) =~= ((match vs[0] {
            ArgModel::Fd(fd) => seq![fd],
            _ => Seq::<i32>::empty(),
        }) + spec_arg_fds(vs.drop_first())) + (match v {
            ArgModel::Fd(fd) => seq![fd],
            _ => Seq::<i32>::empty(),
        }));
    }
    assert(spec_encode_args(vs.push(v)) =~= spec_encode_args(vs) + spec_encode_arg(v));
    assert(spec_arg_fds(vs.push(v)) =~= spec_arg_fds(vs) + (match v {
        ArgModel::Fd(fd) => seq![fd],
        _ => Seq::<i32>::empty(),
    }));
}

/// Decoding the encoding of one argument yields it back.
#[verifier::rlimit(100)]
proof fn lemma_decode_one_encode(
    t: ArgType,
    v: ArgModel,
    p: Seq<u8>,
    i: int,
    fds: Seq<i32>,
    f: int,
)
    requires
        arg_matches(v, t),
        0 <= i,
        0 <= f,
        i + spec_encode_arg(v).len() <= p.len(),
        p.subrange(i, i + spec_encode_arg(v).len() as int) == spec_encode_arg(v),
        spec_encode_arg(v).len() < 0x1_0000_0000,
        t is Fd ==> f < fds.len(),
        (match v {
            ArgModel::Fd(fd) => f < fds.len() && fds[f] == fd,
            _ => true,
        }),
    ensures
        spec_decode_one(t, p, i, fds, f) == Some(
            (v, i + spec_encode_arg(v).len() as int, f + spec_one_arg_fds(v).len() as int),
        ),
{
    let e = spec_encode_arg(v);
    assert(forall|j: int| 0 <= j < e.len() ==> p[i + j] == #[trigger] e[j]) by {
        assert(forall|j: int|
            0 <= j < e.len() ==> p.subrange(i, i + e.len() as int)[j] == #[trigger] e[j]);
    }
    if !(v is Fd) {
        assert(e.len() >= 4);
        assert(p[i] == e[0]);
        assert(p[i + 1] == e[1]);
        assert(p[i + 2] == e[2]);
        assert(p[i + 3] == e[3]);
    }
    match v {
        ArgModel::Int(x) => {
            lemma_word_bytes_roundtrip(spec_word_of_i32(x));
            assert(spec_word_at(p, i) == spec_word_of_i32(x));
            lemma_i32_word_roundtrip(x);
        },
        ArgModel::Uint(x) => {
            lemma_word_bytes_roundtrip(x);
            assert(spec_word_at(p, i) == x);
        },
        ArgModel::Fixed(x) => {
            lemma_word_bytes_roundtrip(spec_word_of_i32(x));
            assert(spec_word_at(p, i) == spec_word_of_i32(x));
            lemma_i32_word_roundtrip(x);
        },
        ArgModel::Object(x) => {
            lemma_word_bytes_roundtrip(x);
            assert(spec_word_at(p, i) == x);
        },
        ArgModel::NewId(x) => {
            lemma_word_bytes_roundtrip(x);
            assert(spec_word_at(p, i) == x);
        },
        ArgModel::Str(o) => {
            match o {
                None => {
                    lemma_word_bytes_roundtrip(0);
                    assert(spec_word_at(p, i) == 0);
                },
                Some(s) => {
                    let l = s.len() as int;
                    lemma_padded_bounds(l + 1);
                    assert(e.len() == 4 + spec_padded(l + 1));
                    assert(l + 1 < 0x1_0000_0000);
                    lemma_word_bytes_roundtrip(((l + 1) as int) as u32);
                    assert(spec_word_at(p, i) == (l + 1) as u32);
                    assert(spec_word_at(p, i) as int == l + 1);
                    let w0 = spec_word_bytes(((l + 1) as int) as u32);
                    let zs = spec_zeros(spec_padded(l + 1) - (l + 1));
                    assert(e == w0 + s + seq![0u8] + zs);
                    assert(forall|j: int| 0 <= j < l ==> p[i + 4 + j] == #[trigger] s[j]) by {
                        assert(forall|j: int|
                            0 <= j < l ==> (w0 + s + seq![0u8] + zs)[4 + j] == #[trigger] s[j])
                            by {
                            assert(forall|j: int|
                                0 <= j < l ==> (w0 + s)[4 + j] == #[trigger] s[j]);
                            assert(forall|j: int|
                                0 <= j < l ==> ((w0 + s + seq![0u8] + zs)[4 + j] == (w0 + s)[4
                                    + #[trigger] (j + 0)]));
                        }
                    }
                    assert(p.subrange(i + 4, i + 4 + l) =~= s);
                },
            }
        },
        ArgModel::Array(a) => {
            let l = a.len() as int;
            lemma_padded_bounds(l);
            assert(e.len() == 4 + spec_padded(l));
            assert(l < 0x1_0000_0000);
            lemma_word_bytes_roundtrip((l as int) as u32);
            assert(spec_word_at(p, i) == l as u32);
            let w0 = spec_word_bytes((l as int) as u32);
            let zs = spec_zeros(spec_padded(l) - l);
            assert(e == w0 + a + zs);
            assert(forall|j: int| 0 <= j < l ==> p[i + 4 + j] == #[trigger] a[j]) by {
                assert(forall|j: int|
                    0 <= j < l ==> (w0 + a + zs)[4 + j] == #[trigger] a[j]) by {
                    assert(forall|j: int| 0 <= j < l ==> (w0 + a)[4 + j] == #[trigger] a[j]);
                    assert(forall|j: int|
                        0 <= j < l ==> ((w0 + a + zs)[4 + j] == (w0 + a)[4 + #[trigger] (j
                            + 0)]));
                }
            }
            assert(p.subrange(i + 4, i + 4 + l) =~= a);
        },
        ArgModel::Fd(fd) => {
        },
    }
}

/// Decoding the encoding of an argument list, from matching offsets,
/// yields the list back.
proof fn lemma_decode_encode_args(
    sig: Seq<ArgType>,
    vs: Seq<ArgModel>,
    p: Seq<u8>,
    i: int,
    fds: Seq<i32>,
    f: int,
)
    requires
        args_match(vs, sig),
        0 <= i,
        0 <= f,
        i + spec_encode_args(vs).len() <= p.len(),
        p.subrange(i, i + spec_encode_args(vs).len() as int) == spec_encode_args(vs),
        spec_encode_args(vs).len() < 0x1_0000_0000,
        f + spec_arg_fds(vs).len() <= fds.len(),
        fds.subrange(f, f + spec_arg_fds(vs).len() as int) == spec_arg_fds(vs),
    ensures
        spec_decode_args(sig, p, i, fds, f) == Some(
            (vs, i + spec_encode_args(vs).len() as int, f + spec_arg_fds(vs).len() as int),
        ),
    decreases sig.len(),
{
    if sig.len() == 0 {
        assert(vs =~= Seq::<ArgModel>::empty());
    } else {
        let v = vs[0];
        let t = sig[0];
        let e0 = spec_encode_arg(v);
        let rest = vs.drop_first();
        assert(arg_matches(v, t));
        assert(spec_encode_args(vs) == e0 + spec_encode_args(rest));
        assert(spec_arg_fds(vs) == spec_one_arg_fds(v) + spec_arg_fds(rest));
        assert(p.subrange(i, i + e0.len() as int) =~= e0) by {
            assert(forall|j: int|
                0 <= j < spec_encode_args(vs).len() ==> p[i + j] == #[trigger] spec_encode_args(
                    vs,
                )[j]) by {
                assert(forall|j: int|
                    0 <= j < spec_encode_args(vs).len() ==> p.subrange(
                        i,
                        i + spec_encode_args(vs).len() as int,
                    )[j] == #[trigger] spec_encode_args(vs)[j]);
            }
        }
        if t is Fd {
            assert(fds.subrange(f, f + spec_arg_fds(vs).len() as int)[0] == spec_arg_fds(vs)[0]);
            assert(fds[f] == spec_arg_fds(vs)[0]);
        }
        lemma_decode_one_encode(t, v, p, i, fds, f);
        let i2 = i + e0.len() as int;
        let f2 = f + spec_one_arg_fds(v).len() as int;
        assert(p.subrange(i2, i2 + spec_encode_args(rest).len() as int) =~= spec_encode_args(
            rest,
        )) by {
            assert(forall|j: int|
                0 <= j < spec_encode_args(vs).len() ==> p[i + j] == #[trigger] spec_encode_args(
                    vs,
                )[j]) by {
                assert(forall|j: int|
                    0 <= j < spec_encode_args(vs).len() ==> p.subrange(
                        i,
                        i + spec_encode_args(vs).len() as int,
                    )[j] == #[trigger] spec_encode_args(vs)[j]);
            }
            assert(forall|j: int|
                0 <= j < spec_encode_args(rest).len() ==> #[trigger] spec_encode_args(rest)[j]
                    == spec_encode_args(vs)[e0.len() + j]);
        }
        assert(fds.subrange(f2, f2 + spec_arg_fds(rest).len() as int) =~= spec_arg_fds(rest))
            by {
            assert(forall|j: int|
                0 <= j < spec_arg_fds(vs).len() ==> fds[f + j] == #[trigger] spec_arg_fds(vs)[j])
                by {
                assert(forall|j: int|
                    0 <= j < spec_arg_fds(vs).len() ==> fds.subrange(
                        f,
                        f + spec_arg_fds(vs).len() as int,
                    )[j] == #[trigger] spec_arg_fds(vs)[j]);
            }
            assert(forall|j: int|
                0 <= j < spec_arg_fds(rest).len() ==> #[trigger] spec_arg_fds(rest)[j]
                    == spec_arg_fds(vs)[spec_one_arg_fds(v).len() + j]);
        }
        assert(args_match(rest, sig.drop_first()));
        lemma_decode_encode_args(sig.drop_first(), rest, p, i2, fds, f2);
        assert(seq![v] + rest =~= vs);
    }
}

/// Round trip: decoding a frame body that was produced by encoding a
/// matching argument list, with those arguments' descriptors at the front
/// of the fd queue, yields exactly the original arguments and consumes
/// exactly those descriptors.
pub proof fn lemma_codec_roundtrip(sig: Seq<ArgType>, vs: Seq<ArgModel>, fds: Seq<i32>)
    requires
        args_match(vs, sig),
        spec_encode_args(vs).len() < 0x1_0000_0000,
        spec_arg_fds(vs).len() <= fds.len(),
        fds.subrange(0, spec_arg_fds(vs).len() as int) == spec_arg_fds(vs),
    ensures
        spec_decode_frame(sig, spec_encode_args(vs), fds) == Some(
            (vs, spec_arg_fds(vs).len() as int),
        ),
{
    let p = spec_encode_args(vs);
    assert(p.subrange(0, p.len() as int) =~= p);
    lemma_decode_encode_args(sig, vs, p, 0, fds, 0);
}

/// Whatever decoding accepts fits the signature it was decoded by.
pub proof fn lemma_decode_args_match(
    sig: Seq<ArgType>,
    p: Seq<u8>,
    i: int,
    fds: Seq<i32>,
    f: int,
)
    ensures
        spec_decode_args(sig, p, i, fds, f) matches Some(t) ==> args_match(t.0, sig),
    decreases sig.len(),
{
    if sig.len() > 0 {
        match spec_decode_one(sig[0], p, i, fds, f) {
            None => {},
            Some((v, i2, f2)) => {
                lemma_decode_args_match(sig.drop_first(), p, i2, fds, f2);
                match spec_decode_args(sig.drop_first(), p, i2, fds, f2) {
                    None => {},
                    Some((vs, i3, f3)) => {
                        assert(arg_matches(v, sig[0]));
                        let t0 = seq![v] + vs;
                        assert(t0[0] == v);
                        assert(forall|k: int| 1 <= k < t0.len() ==> t0[k] == vs[k - 1]);
                        assert forall|k: int|
                            0 <= k < t0.len() implies arg_matches(t0[k], #[trigger] sig[k]) by {
                            if k > 0 {
                                assert(t0[k] == vs[k - 1]);
                                assert(sig.drop_first()[k - 1] == sig[k]);
                                assert(arg_matches(vs[k - 1], sig.drop_first()[k - 1]));
                            }
                        }
                    },
                }
            },
        }
    }
}

/// Decoding consumes descriptors within the queue's bounds.
pub proof fn lemma_decode_args_bounds(
    sig: Seq<ArgType>,
    p: Seq<u8>,
    i: int,
    fds: Seq<i32>,
    f: int,
)
    requires
        0 <= f <= fds.len(),
    ensures
        spec_decode_args(sig, p, i, fds, f) matches Some(t) ==> f <= t.2 <= fds.len(),
    decreases sig.len(),
{
    if sig.len() > 0 {
        match spec_decode_one(sig[0], p, i, fds, f) {
            None => {},
            Some((v, i2, f2)) => {
                lemma_decode_args_bounds(sig.drop_first(), p, i2, fds, f2);
            },
        }
    }
}

} // verus!
