//! Routes through the relay network: segments of hop keys, each tagged with
//! the component that receives the package at its end, turned into a list of
//! hop headers that each name the next node and are encrypted for the node
//! that reads them.
use vstd::prelude::*;
use crate::cryptde::{crypt_view, CryptDE, CryptdeError};
use crate::bytes::copy_range;

verus! {

/// A component of a node that a package can be delivered to.
#[derive(Clone, Copy, Debug, PartialEq, Eq, Structural)]
pub enum Component {
    Hopper,
    ProxyServer,
    ProxyClient,
}

/// The byte that stands for a component in a hop header.
pub open spec fn component_code(c: Component) -> u8 {
    match c {
        Component::Hopper => 0,
        Component::ProxyServer => 1,
        Component::ProxyClient => 2,
    }
}

/// A hop header in clear: the component, then the next node's key.
pub open spec fn hop_bytes(next: Seq<u8>, c: Component) -> Seq<u8> {
    seq![component_code(c)] + next
}

/// Node keys in the order a package visits them, and the component of the
/// last node that receives it.
#[derive(Debug, PartialEq)]
pub struct RouteSegment {
    pub keys: Vec<Vec<u8>>,
    pub recipient: Component,
}

pub open spec fn keys_view(keys: Seq<Vec<u8>>) -> Seq<Seq<u8>> {
    keys.map_values(|k: Vec<u8>| k@)
}

pub open spec fn segments_view(segs: Seq<RouteSegment>) -> Seq<(Seq<Seq<u8>>, Component)> {
    segs.map_values(|s: RouteSegment| (keys_view(s.keys@), s.recipient))
}

/// The hops of one segment, each as (key it is encrypted for, header in
/// clear): every node but the last forwards to the next, whose component is
/// the relay's own but at the end of the segment.
pub open spec fn segment_hops(keys: Seq<Seq<u8>>, recipient: Component) -> Seq<(Seq<u8>, Seq<u8>)> {
    Seq::new(
        if keys.len() < 2 { 0 } else { (keys.len() - 1) as nat },
        |i: int|
            (
                keys[i],
                hop_bytes(
                    keys[i + 1],
                    if i == keys.len() - 2 { recipient } else { Component::Hopper },
                ),
            ),
    )
}

/// The hops of all segments, in order.
pub open spec fn plain_hops(segs: Seq<(Seq<Seq<u8>>, Component)>) -> Seq<(Seq<u8>, Seq<u8>)>
    decreases segs.len(),
{
    if segs.len() == 0 {
        seq![]
    } else {
        plain_hops(segs.drop_last()) + segment_hops(segs.last().0, segs.last().1)
    }
}

/// `p` in front of a list of headers, or the error.
pub open spec fn prefixed(p: Seq<Seq<u8>>, r: Result<Seq<Seq<u8>>, CryptdeError>) -> Result<
    Seq<Seq<u8>>,
    CryptdeError,
> {
    match r {
        Ok(x) => Ok(p + x),
        Err(e) => Err(e),
    }
}

/// Each hop encrypted in turn; the first failure is the result.
pub open spec fn encrypt_hops<C: CryptDE>(c: &C, hops: Seq<(Seq<u8>, Seq<u8>)>) -> Result<
    Seq<Seq<u8>>,
    CryptdeError,
>
    decreases hops.len(),
{
    if hops.len() == 0 {
        Ok(seq![])
    } else {
        match c.spec_encode(hops[0].0, hops[0].1) {
            Err(e) => Err(e),
            Ok(x) => prefixed(seq![x], encrypt_hops(c, hops.drop_first())),
        }
    }
}

/// A route as encrypted hop headers.
#[derive(Debug, PartialEq)]
pub struct Route {
    pub hops: Vec<Vec<u8>>,
}

/// What building a route returned, over views.
pub open spec fn route_view(r: Result<Route, CryptdeError>) -> Result<Seq<Seq<u8>>, CryptdeError> {
    match r {
        Ok(route) => Ok(route.view_hops()),
        Err(e) => Err(e),
    }
}

impl Route {
    pub open spec fn view_hops(&self) -> Seq<Seq<u8>> {
        self.hops@.map_values(|h: Vec<u8>| h@)
    }

    /// Builds the route through `segments`, encrypting each hop header for
    /// the node that reads it.
    pub fn new<C: CryptDE>(segments: &Vec<RouteSegment>, cryptde: &C) -> (r: Result<Route, CryptdeError>)
        ensures
            route_view(r) == encrypt_hops(cryptde, plain_hops(segments_view(segments@))),
    {
        let hops = hops_in_clear(segments);
        let ghost all = plain_hops(segments_view(segments@));
        let mut out: Vec<Vec<u8>> = Vec::new();
        let mut i: usize = 0;
        proof {
            assert(all.subrange(0, all.len() as int) =~= all);
            match encrypt_hops(cryptde, all) {
                Ok(t) => {
                    assert(out@.map_values(|h: Vec<u8>| h@) + t =~= t);
                },
                Err(_) => {},
            }
        }
        while i < hops.len()
            invariant
                i <= hops@.len() == all.len(),
                all == plain_hops(segments_view(segments@)),
                forall|k: int| 0 <= k < all.len() ==> (#[trigger] hops@[k]).0@ == all[k].0 && hops@[k].1@
                    == all[k].1,
                encrypt_hops(cryptde, all) == prefixed(
                    out@.map_values(|h: Vec<u8>| h@),
                    encrypt_hops(cryptde, all.subrange(i as int, all.len() as int)),
                ),
            decreases hops@.len() - i,
        {
            let ghost rest = all.subrange(i as int, all.len() as int);
            assert(rest.drop_first() =~= all.subrange(i + 1, all.len() as int));
            assert(rest[0] == all[i as int]);
            match cryptde.encode(&hops[i].0, &hops[i].1) {
                Err(e) => {
                    assert(cryptde.spec_encode(rest[0].0, rest[0].1) == Err::<Seq<u8>, CryptdeError>(e));
                    assert(encrypt_hops(cryptde, rest) == Err::<Seq<Seq<u8>>, CryptdeError>(e));
                    assert(encrypt_hops(cryptde, all) == Err::<Seq<Seq<u8>>, CryptdeError>(e));
                    return Err(e);
                },
                Ok(x) => {
                    proof {
                        let tail = encrypt_hops(cryptde, all.subrange(i + 1, all.len() as int));
                        let before = out@.map_values(|h: Vec<u8>| h@);
                        let after = out@.push(x).map_values(|h: Vec<u8>| h@);
                        assert(after =~= before.push(x@));
                        match tail {
                            Ok(t) => {
                                assert(before + (seq![x@] + t) =~= after + t);
                            },
                            Err(_) => {},
                        }
                    }
                    out.push(x);
                },
            }
            i = i + 1;
        }
        proof {
            assert(all.subrange(i as int, all.len() as int) =~= Seq::<(Seq<u8>, Seq<u8>)>::empty());
            assert(out@.map_values(|h: Vec<u8>| h@) + Seq::<Seq<u8>>::empty() =~= out@.map_values(
                |h: Vec<u8>| h@,
            ));
        }
        Ok(Route { hops: out })
    }
}

/// The hops of all segments in clear, each with the key it is for.
fn hops_in_clear(segments: &Vec<RouteSegment>) -> (r: Vec<(Vec<u8>, Vec<u8>)>)
    ensures
        r@.len() == plain_hops(segments_view(segments@)).len(),
        forall|k: int|
            0 <= k < r@.len() ==> (#[trigger] r@[k]).0@ == plain_hops(segments_view(segments@))[k].0
                && r@[k].1@ == plain_hops(segments_view(segments@))[k].1,
{
    let ghost segs = segments_view(segments@);
    let mut out: Vec<(Vec<u8>, Vec<u8>)> = Vec::new();
    let mut j: usize = 0;
    while j < segments.len()
        invariant
            j <= segments@.len(),
            segs == segments_view(segments@),
            out@.len() == plain_hops(segs.subrange(0, j as int)).len(),
            forall|k: int|
                0 <= k < out@.len() ==> (#[trigger] out@[k]).0@ == plain_hops(
                    segs.subrange(0, j as int),
                )[k].0 && out@[k].1@ == plain_hops(segs.subrange(0, j as int))[k].1,
        decreases segments@.len() - j,
    {
        let seg = &segments[j];
        let ghost keys = keys_view(seg.keys@);
        let ghost sh = segment_hops(keys, seg.recipient);
        let ghost base = plain_hops(segs.subrange(0, j as int));
        let ghost base_len = out@.len();
        let n = seg.keys.len();
        if n >= 2 {
            let mut i: usize = 0;
            while i < n - 1
                invariant
                    n == seg.keys@.len() >= 2,
                    i <= n - 1,
                    keys == keys_view(seg.keys@),
                    sh == segment_hops(keys, seg.recipient),
                    out@.len() == base_len + i,
                    base_len == base.len(),
                    forall|k: int|
                        0 <= k < base_len ==> (#[trigger] out@[k]).0@ == base[k].0 && out@[k].1@
                            == base[k].1,
                    forall|k: int|
                        0 <= k < i ==> (#[trigger] out@[base_len + k]).0@ == sh[k].0 && out@[base_len
                            + k].1@ == sh[k].1,
                decreases n - 1 - i,
            {
                let key = copy_range(&seg.keys[i], 0, seg.keys[i].len());
                let next = &seg.keys[i + 1];
                let c = if i == n - 2 {
                    seg.recipient
                } else {
                    Component::Hopper
                };
                let mut header: Vec<u8> = Vec::new();
                header.push(component_byte(c));
                let mut t: usize = 0;
                while t < next.len()
                    invariant
                        t <= next@.len(),
                        header@ == seq![component_code(c)] + next@.subrange(0, t as int),
                    decreases next@.len() - t,
                {
                    header.push(next[t]);
                    t = t + 1;
                }
                assert(next@.subrange(0, next@.len() as int) =~= next@);
                out.push((key, header));
                i = i + 1;
            }
        }
        proof {
            let sub = segs.subrange(0, j + 1);
            assert(sub.drop_last() =~= segs.subrange(0, j as int));
            assert(sub.last() == segs[j as int]);
            assert(plain_hops(sub) == base + sh);
            assert forall|k: int| 0 <= k < out@.len() implies (#[trigger] out@[k]).0@ == plain_hops(
                sub,
            )[k].0 && out@[k].1@ == plain_hops(sub)[k].1 by {
                if k >= base_len {
                    assert(out@[base_len + (k - base_len)] == out@[k]);
                }
            }
        }
        j = j + 1;
    }
    assert(segs.subrange(0, j as int) =~= segs);
    out
}

fn component_byte(c: Component) -> (r: u8)
    ensures
        r == component_code(c),
{
    match c {
        Component::Hopper => 0,
        Component::ProxyServer => 1,
        Component::ProxyClient => 2,
    }
}

} // verus!
