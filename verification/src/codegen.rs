//! The layout of the generated protocol code: the parallel interface
//! name and version arrays, the shape of the dispatch table, and the
//! casing of generated type names.
//!
//! The build tool renders Rust source text from this layout. The
//! layout itself — which interfaces appear and in what order, which
//! dispatch cell names which request, and how far each row is padded —
//! is computed and proved here.

use vstd::prelude::*;

use crate::scanner::{InterfaceDef, Protocol};

verus! {

/// The interfaces of a protocol list, flattened in order.
pub open spec fn spec_ifaces(ps: Seq<Protocol>) -> Seq<InterfaceDef>
    decreases ps.len(),
{
    if ps.len() == 0 {
        Seq::<InterfaceDef>::empty()
    } else {
        ps[0].interfaces@ + spec_ifaces(ps.drop_first())
    }
}

/// Flattening one more protocol appends its interfaces.
proof fn lemma_ifaces_snoc(ps: Seq<Protocol>, p: Protocol)
    ensures
        spec_ifaces(ps.push(p)) == spec_ifaces(ps) + p.interfaces@,
    decreases ps.len(),
{
    if ps.len() == 0 {
        assert(ps.push(p)[0] == p);
        assert(ps.push(p).drop_first() =~= ps);
        assert(p.interfaces@ + spec_ifaces(ps) =~= spec_ifaces(ps) + p.interfaces@);
    } else {
        lemma_ifaces_snoc(ps.drop_first(), p);
        assert(ps.push(p)[0] == ps[0]);
        assert(ps.push(p).drop_first() =~= ps.drop_first().push(p));
        assert(ps[0].interfaces@ + (spec_ifaces(ps.drop_first()) + p.interfaces@) =~= (
        ps[0].interfaces@ + spec_ifaces(ps.drop_first())) + p.interfaces@);
    }
}

/// Snake case turned Pascal: underscores split words, the first ASCII
/// letter of each word is uppercased, everything else is kept.
pub open spec fn spec_pascal(s: Seq<u8>, at_word_start: bool) -> Seq<u8>
    decreases s.len(),
{
    if s.len() == 0 {
        Seq::<u8>::empty()
    } else if s[0] == 95 {
        spec_pascal(s.drop_first(), true)
    } else {
        let c: u8 = if at_word_start && 97 <= s[0] <= 122 {
            (s[0] - 32) as u8
        } else {
            s[0]
        };
        seq![c] + spec_pascal(s.drop_first(), false)
    }
}

/// Turn a snake-case ASCII name into the Pascal-case type name the
/// generated code uses.
pub fn pascal_case(s: &Vec<u8>) -> (r: Vec<u8>)
    ensures
        r@ == spec_pascal(s@, true),
{
    let n = s.len();
    let mut out: Vec<u8> = Vec::new();
    let mut start = true;
    let mut i: usize = 0;
    proof {
        assert(s@.skip(0) =~= s@);
    }
    while i < n
        invariant
            i <= n,
            n == s@.len(),
            out@ + spec_pascal(s@.skip(i as int), start) == spec_pascal(s@, true),
        decreases n - i,
    {
        proof {
            assert(s@.skip(i as int)[0] == s@[i as int]);
            assert(s@.skip(i as int).drop_first() =~= s@.skip(i as int + 1));
        }
        let b = s[i];
        if b == 95 {
            start = true;
        } else {
            let c: u8 = if start && 97 <= b && b <= 122 {
                b - 32
            } else {
                b
            };
            let ghost out0 = out@;
            out.push(c);
            proof {
                assert(out0 + (seq![c] + spec_pascal(s@.skip(i as int + 1), false)) =~= out@
                    + spec_pascal(s@.skip(i as int + 1), false));
            }
            start = false;
        }
        i = i + 1;
    }
    proof {
        assert(s@.skip(n as int) =~= Seq::<u8>::empty());
        assert(out@ + Seq::<u8>::empty() =~= out@);
    }
    out
}

/// One filled cell of the dispatch table: the snake-case interface
/// name and the request name whose demarshaller the cell holds.
pub struct DispatchCell {
    pub interface: Vec<u8>,
    pub request: Vec<u8>,
}

/// The layout of the generated tables: interface names and versions in
/// interface order, and one dispatch row per interface, every row
/// `width` cells wide.
pub struct CodeLayout {
    pub names: Vec<Vec<u8>>,
    pub versions: Vec<u32>,
    pub rows: Vec<Vec<Option<DispatchCell>>>,
    pub width: usize,
}

/// Copy a byte vector.
fn copy_bytes(v: &Vec<u8>) -> (r: Vec<u8>)
    ensures
        r@ == v@,
{
    let mut out: Vec<u8> = Vec::new();
    out.extend_from_slice(v.as_slice());
    proof {
        assert(out@ =~= v@);
    }
    out
}

/// Lay the scanned protocols out as the generated tables: one name,
/// one version and one dispatch row per interface, in scan order; row
/// `k`, cell `j` names interface `k`'s request `j` while requests
/// last, and is empty padding from there to the width, which is the
/// largest request count any interface has.
pub fn layout(ps: &Vec<Protocol>) -> (r: CodeLayout)
    ensures
        r.names@.len() == spec_ifaces(ps@).len(),
        r.versions@.len() == spec_ifaces(ps@).len(),
        r.rows@.len() == spec_ifaces(ps@).len(),
        forall|k: int|
            0 <= k < spec_ifaces(ps@).len() ==> (#[trigger] r.names@[k])@ == spec_ifaces(
                ps@,
            )[k].name@,
        forall|k: int|
            0 <= k < spec_ifaces(ps@).len() ==> (#[trigger] r.versions@[k]) == spec_ifaces(
                ps@,
            )[k].version,
        forall|k: int|
            0 <= k < spec_ifaces(ps@).len() ==> (#[trigger] r.rows@[k])@.len() == r.width,
        forall|k: int|
            0 <= k < spec_ifaces(ps@).len() ==> (#[trigger] spec_ifaces(ps@)[k]).requests@.len()
                <= r.width,
        r.width > 0 ==> exists|k: int|
            0 <= k < spec_ifaces(ps@).len() && (#[trigger] spec_ifaces(ps@)[k]).requests@.len()
                == r.width,
        forall|k: int, j: int|
            0 <= k < spec_ifaces(ps@).len() && 0 <= j < spec_ifaces(ps@)[k].requests@.len()
                ==> ((#[trigger] r.rows@[k]@[j]) matches Some(c) && c.interface@ == spec_ifaces(
                ps@,
            )[k].name@ && c.request@ == spec_ifaces(ps@)[k].requests@[j].name@),
        forall|k: int, j: int|
            0 <= k < spec_ifaces(ps@).len() && spec_ifaces(ps@)[k].requests@.len() <= j
                < r.width ==> (#[trigger] r.rows@[k]@[j]) is None,
{
    let mut names: Vec<Vec<u8>> = Vec::new();
    let mut versions: Vec<u32> = Vec::new();
    let mut reqs: Vec<Vec<Vec<u8>>> = Vec::new();
    let mut width: usize = 0;

    let np = ps.len();
    let mut i: usize = 0;
    proof {
        assert(spec_ifaces(ps@.take(0)) =~= Seq::<InterfaceDef>::empty());
    }
    while i < np
        invariant
            i <= np,
            np == ps@.len(),
            names@.len() == spec_ifaces(ps@.take(i as int)).len(),
            versions@.len() == names@.len(),
            reqs@.len() == names@.len(),
            forall|k: int|
                0 <= k < names@.len() ==> (#[trigger] names@[k])@ == spec_ifaces(
                    ps@.take(i as int),
                )[k].name@,
            forall|k: int|
                0 <= k < names@.len() ==> (#[trigger] versions@[k]) == spec_ifaces(
                    ps@.take(i as int),
                )[k].version,
            forall|k: int|
                0 <= k < names@.len() ==> (#[trigger] reqs@[k])@.len() == spec_ifaces(
                    ps@.take(i as int),
                )[k].requests@.len(),
            forall|k: int, j: int|
                0 <= k < names@.len() && 0 <= j < reqs@[k]@.len() ==> (#[trigger] reqs@[k]@[j])@
                    == spec_ifaces(ps@.take(i as int))[k].requests@[j].name@,
            forall|k: int|
                0 <= k < names@.len() ==> (#[trigger] reqs@[k])@.len() <= width,
            width > 0 ==> exists|k: int|
                0 <= k < reqs@.len() && (#[trigger] reqs@[k])@.len() == width as int,
        decreases np - i,
    {
        let ghost flat0 = spec_ifaces(ps@.take(i as int));
        proof {
            assert(ps@.take(i as int + 1) =~= ps@.take(i as int).push(ps@[i as int]));
            lemma_ifaces_snoc(ps@.take(i as int), ps@[i as int]);
            assert(ps@[i as int].interfaces@.take(0) =~= Seq::<InterfaceDef>::empty());
            assert(flat0 + Seq::<InterfaceDef>::empty() =~= flat0);
        }
        let ni = ps[i].interfaces.len();
        let mut k: usize = 0;
        while k < ni
            invariant
                k <= ni,
                i < np,
                np == ps@.len(),
                ni == ps@[i as int].interfaces@.len(),
                flat0 == spec_ifaces(ps@.take(i as int)),
                names@.len() == flat0.len() + k,
                versions@.len() == names@.len(),
                reqs@.len() == names@.len(),
                forall|m: int|
                    0 <= m < names@.len() ==> (#[trigger] names@[m])@ == (flat0 + ps@[i as int].interfaces@.take(k as int))[m].name@,
                forall|m: int|
                    0 <= m < names@.len() ==> (#[trigger] versions@[m]) == (flat0
                        + ps@[i as int].interfaces@.take(k as int))[m].version,
                forall|m: int|
                    0 <= m < names@.len() ==> (#[trigger] reqs@[m])@.len() == (flat0
                        + ps@[i as int].interfaces@.take(k as int))[m].requests@.len(),
                forall|m: int, j: int|
                    0 <= m < names@.len() && 0 <= j < reqs@[m]@.len() ==> (
                    #[trigger] reqs@[m]@[j])@ == (flat0 + ps@[i as int].interfaces@.take(
                        k as int,
                    ))[m].requests@[j].name@,
                forall|m: int|
                    0 <= m < names@.len() ==> (#[trigger] reqs@[m])@.len() <= width,
                width > 0 ==> exists|m: int|
                    0 <= m < reqs@.len() && (#[trigger] reqs@[m])@.len() == width as int,
            decreases ni - k,
        {
            proof {
                assert(ps@[i as int].interfaces@.take(k as int + 1)
                    =~= ps@[i as int].interfaces@.take(k as int).push(
                    ps@[i as int].interfaces@[k as int],
                ));
            }
            let iface = &ps[i].interfaces[k];
            names.push(copy_bytes(&iface.name));
            versions.push(iface.version);
            let nr = iface.requests.len();
            let mut rn: Vec<Vec<u8>> = Vec::new();
            let mut j: usize = 0;
            while j < nr
                invariant
                    j <= nr,
                    i < np,
                    k < ni,
                    np == ps@.len(),
                    ni == ps@[i as int].interfaces@.len(),
                    nr == ps@[i as int].interfaces@[k as int].requests@.len(),
                    rn@.len() == j,
                    forall|m: int|
                        0 <= m < j ==> (#[trigger] rn@[m])@
                            == ps@[i as int].interfaces@[k as int].requests@[m].name@,
                decreases nr - j,
            {
                rn.push(copy_bytes(&ps[i].interfaces[k].requests[j].name));
                j = j + 1;
            }
            let ghost width0: usize = width;
            if nr > width {
                width = nr;
            }
            let ghost reqs0 = reqs@;
            reqs.push(rn);
            proof {
                if width > 0 {
                    if nr == width {
                        assert(reqs@[reqs@.len() - 1]@.len() == width as int);
                    } else {
                        let m0 = choose|m: int|
                            0 <= m < reqs0.len() && (#[trigger] reqs0[m])@.len() == width0 as int;
                        assert(reqs@[m0] == reqs0[m0]);
                        assert(reqs@[m0]@.len() == width as int);
                    }
                }
                let prev = flat0 + ps@[i as int].interfaces@.take(k as int);
                let cur = flat0 + ps@[i as int].interfaces@.take(k as int + 1);
                assert(cur.len() == names@.len());
                assert(cur[names@.len() - 1] == ps@[i as int].interfaces@[k as int]);
                assert(forall|m: int| 0 <= m < prev.len() ==> #[trigger] cur[m] == prev[m]);
                assert(reqs@[names@.len() - 1]@.len() == nr as int);
            }
            k = k + 1;
        }
        proof {
            assert(ps@[i as int].interfaces@.take(ni as int) =~= ps@[i as int].interfaces@);
        }
        i = i + 1;
    }
    proof {
        assert(ps@.take(np as int) =~= ps@);
    }

    let total = names.len();
    let mut rows: Vec<Vec<Option<DispatchCell>>> = Vec::new();
    let mut k: usize = 0;
    while k < total
        invariant
            k <= total,
            total == names@.len(),
            reqs@.len() == total,
            rows@.len() == k,
            forall|m: int|
                0 <= m < total ==> (#[trigger] reqs@[m])@.len() <= width,
            forall|m: int| 0 <= m < k ==> (#[trigger] rows@[m])@.len() == width,
            forall|m: int, j: int|
                0 <= m < k && 0 <= j < reqs@[m]@.len() ==> ((#[trigger] rows@[m]@[j]) matches Some(
                    c,
                ) && c.interface@ == names@[m]@ && c.request@ == reqs@[m]@[j]@),
            forall|m: int, j: int|
                0 <= m < k && reqs@[m]@.len() <= j < width ==> (#[trigger] rows@[m]@[j])
                    is None,
        decreases total - k,
    {
        let mut row: Vec<Option<DispatchCell>> = Vec::new();
        let nr = reqs[k].len();
        let mut j: usize = 0;
        while j < width
            invariant
                j <= width,
                k < total,
                total == names@.len(),
                reqs@.len() == total,
                nr == reqs@[k as int]@.len(),
                nr <= width,
                row@.len() == j,
                forall|m: int|
                    0 <= m < j && m < nr ==> ((#[trigger] row@[m]) matches Some(c)
                        && c.interface@ == names@[k as int]@ && c.request@
                        == reqs@[k as int]@[m]@),
                forall|m: int| nr <= m < j ==> (#[trigger] row@[m]) is None,
            decreases width - j,
        {
            if j < nr {
                row.push(
                    Some(
                        DispatchCell {
                            interface: copy_bytes(&names[k]),
                            request: copy_bytes(&reqs[k][j]),
                        },
                    ),
                );
            } else {
                row.push(None);
            }
            j = j + 1;
        }
        rows.push(row);
        k = k + 1;
    }

    proof {
        let flat = spec_ifaces(ps@);
        assert forall|m: int|
            0 <= m < flat.len() implies (#[trigger] flat[m]).requests@.len() <= width by {
            assert(reqs@[m]@.len() == flat[m].requests@.len());
            assert(reqs@[m]@.len() <= width);
        }
        if width > 0 {
            let m = choose|m: int|
                0 <= m < reqs@.len() && (#[trigger] reqs@[m])@.len() == width as int;
            assert(flat[m].requests@.len() == width);
        }
        assert forall|m: int, j: int|
            0 <= m < flat.len() && 0 <= j < flat[m].requests@.len() implies ((
        #[trigger] rows@[m]@[j]) matches Some(c) && c.interface@ == flat[m].name@ && c.request@
            == flat[m].requests@[j].name@) by {
            assert(reqs@[m]@.len() == flat[m].requests@.len());
            assert(rows@[m]@[j] matches Some(c) && c.interface@ == names@[m]@ && c.request@
                == reqs@[m]@[j]@);
            assert(names@[m]@ == flat[m].name@);
            assert(reqs@[m]@[j]@ == flat[m].requests@[j].name@);
        }
        assert forall|m: int, j: int|
            0 <= m < flat.len() && flat[m].requests@.len() <= j < width implies (
        #[trigger] rows@[m]@[j]) is None by {
            assert(reqs@[m]@.len() == flat[m].requests@.len());
        }
    }
    CodeLayout { names, versions, rows, width }
}

} // verus!
