//! Ports that a sandboxed command may listen on.
use vstd::prelude::*;

verus! {

/// Whether `ports` go up, none of them twice.
pub open spec fn ascending(ports: Seq<u16>) -> bool {
    forall|i: int, j: int| 0 <= i < j < ports.len() ==> ports[i] < ports[j]
}

/// Whether `ports` are those of `a` and `b`, going up, none of them twice.
pub open spec fn merges(ports: Seq<u16>, a: Seq<u16>, b: Seq<u16>) -> bool {
    &&& ascending(ports)
    &&& forall|port: u16| #[trigger]
        ports.contains(port) <==> a.contains(port) || b.contains(port)
}

/// The ports of `a` and `b`, going up, none of them twice.
pub open spec fn merged_ports(a: Seq<u16>, b: Seq<u16>) -> Seq<u16> {
    choose|ports: Seq<u16>| merges(ports, a, b)
}

/// Puts `port` where it belongs, unless it is there already.
fn insert_port(ports: &mut Vec<u16>, port: u16)
    requires
        ascending(old(ports)@),
    ensures
        ascending(final(ports)@),
        forall|other: u16| #[trigger]
            final(ports)@.contains(other) <==> old(ports)@.contains(other) || other == port,
{
    let ghost before = ports@;
    let mut at: usize = 0;
    while at < ports.len() && ports[at] < port
        invariant
            at <= ports@.len(),
            ports@ == before,
            ascending(before),
            forall|i: int| 0 <= i < at ==> before[i] < port,
        decreases ports@.len() - at,
    {
        at = at + 1;
    }
    if at < ports.len() && ports[at] == port {
        assert(before.contains(port));
        return ;
    }
    ports.insert(at, port);
    let ghost after = ports@;
    proof {
        assert forall|i: int, j: int| 0 <= i < j < after.len() implies after[i] < after[j] by {
            let p = if i < at { i } else { i - 1 };
            let q = if j < at { j } else { j - 1 };
            assert(i != at ==> after[i] == before[p]);
            assert(j != at ==> after[j] == before[q]);
        }
        assert forall|other: u16| #[trigger] after.contains(other) <==> before.contains(other)
            || other == port by {
            if after.contains(other) {
                let i = after.index_of(other);
                if i != at {
                    assert(before[if i < at { i } else { i - 1 }] == other);
                }
            }
            if before.contains(other) {
                let i = before.index_of(other);
                assert(after[if i < at { i } else { i + 1 }] == other);
            }
            assert(after[at as int] == port);
        }
    }
}

/// The ports of two lists, going up, none of them twice.
pub fn merge_dedup_ports(a: &[u16], b: &[u16]) -> (ports: Vec<u16>)
    ensures
        merges(ports@, a@, b@),
        ports@ == merged_ports(a@, b@),
{
    let mut ports: Vec<u16> = Vec::new();
    let mut i: usize = 0;
    while i < a.len()
        invariant
            i <= a@.len(),
            ascending(ports@),
            forall|port: u16| #[trigger] ports@.contains(port) <==> a@.take(i as int).contains(port),
        decreases a@.len() - i,
    {
        let ghost before = ports@;
        insert_port(&mut ports, a[i]);
        assert(a@.take(i + 1) =~= a@.take(i as int).push(a@[i as int]));
        assert forall|port: u16| #[trigger] ports@.contains(port) <==> a@.take(i + 1).contains(
            port,
        ) by {
            lemma_push_contains(a@.take(i as int), a@[i as int], port);
            assert(before.contains(port) <==> a@.take(i as int).contains(port));
        }
        i = i + 1;
    }
    assert(a@.take(i as int) =~= a@);
    let mut j: usize = 0;
    while j < b.len()
        invariant
            j <= b@.len(),
            ascending(ports@),
            forall|port: u16| #[trigger]
                ports@.contains(port) <==> a@.contains(port) || b@.take(j as int).contains(port),
        decreases b@.len() - j,
    {
        let ghost before = ports@;
        insert_port(&mut ports, b[j]);
        assert(b@.take(j + 1) =~= b@.take(j as int).push(b@[j as int]));
        assert forall|port: u16| #[trigger] ports@.contains(port) <==> a@.contains(port)
            || b@.take(j + 1).contains(port) by {
            lemma_push_contains(b@.take(j as int), b@[j as int], port);
            assert(before.contains(port) <==> a@.contains(port) || b@.take(j as int).contains(port));
        }
        j = j + 1;
    }
    assert(b@.take(j as int) =~= b@);
    assert(merges(ports@, a@, b@));
    proof {
        lemma_merges_unique(ports@, merged_ports(a@, b@), a@, b@);
    }
    ports
}

proof fn lemma_push_contains(s: Seq<u16>, port: u16, other: u16)
    ensures
        s.push(port).contains(other) <==> s.contains(other) || other == port,
{
    if s.push(port).contains(other) {
        let i = s.push(port).index_of(other);
        if i < s.len() {
            assert(s[i] == other);
        }
    }
    if s.contains(other) {
        let i = s.index_of(other);
        assert(s.push(port)[i] == other);
    }
    assert(s.push(port)[s.len() as int] == port);
}

/// Two ascending lists of the same ports are the same list.
pub proof fn lemma_ascending_unique(x: Seq<u16>, y: Seq<u16>)
    requires
        ascending(x),
        ascending(y),
        forall|port: u16|
            #![trigger x.contains(port)]
            #![trigger y.contains(port)]
            x.contains(port) <==> y.contains(port),
    ensures
        x == y,
    decreases x.len(),
{
    if x.len() == 0 {
        if y.len() > 0 {
            assert(y.contains(y[0]));
        }
        assert(x =~= y);
    } else {
        assert(x.contains(x.last()));
        let k = y.index_of(x.last());
        assert(y.contains(y.last()));
        let m = x.index_of(y.last());
        assert(y[k] <= y.last());
        assert(x[m] <= x.last());
        assert(x.last() == y.last());
        let xs = x.drop_last();
        let ys = y.drop_last();
        assert forall|port: u16|
            #![trigger xs.contains(port)]
            #![trigger ys.contains(port)]
            xs.contains(port) <==> ys.contains(port) by {
            if xs.contains(port) {
                let i = xs.index_of(port);
                assert(x[i] == port && x.contains(port) && y.contains(port));
                let j = y.index_of(port);
                assert(j < ys.len());
                assert(ys[j] == port);
            }
            if ys.contains(port) {
                let j = ys.index_of(port);
                assert(y[j] == port && y.contains(port) && x.contains(port));
                let i = x.index_of(port);
                assert(i < xs.len());
                assert(xs[i] == port);
            }
        }
        lemma_ascending_unique(xs, ys);
        assert(x =~= xs.push(x.last()));
        assert(y =~= ys.push(y.last()));
    }
}

/// There is one way to merge two lists.
proof fn lemma_merges_unique(x: Seq<u16>, y: Seq<u16>, a: Seq<u16>, b: Seq<u16>)
    requires
        merges(x, a, b),
        merges(y, a, b),
    ensures
        x == y,
{
    assert forall|port: u16|
        #![trigger x.contains(port)]
        #![trigger y.contains(port)]
        x.contains(port) <==> y.contains(port) by {}
    lemma_ascending_unique(x, y);
}

/// Merging is determined by the two lists, does not care about their order, and merging the
/// result with either list again changes nothing.
pub proof fn lemma_merging_is_a_union(x: Seq<u16>, y: Seq<u16>, z: Seq<u16>, a: Seq<u16>, b: Seq<u16>)
    requires
        merges(x, a, b),
        merges(y, b, a),
        merges(z, x, b),
    ensures
        x == y,
        x == z,
{
    assert forall|port: u16|
        #![trigger x.contains(port)]
        #![trigger y.contains(port)]
        x.contains(port) <==> y.contains(port) by {}
    lemma_ascending_unique(x, y);
    assert forall|port: u16|
        #![trigger x.contains(port)]
        #![trigger z.contains(port)]
        x.contains(port) <==> z.contains(port) by {}
    lemma_ascending_unique(x, z);
}

proof fn lemma_port_can_be_inserted(ports: Seq<u16>, port: u16) -> (with: Seq<u16>)
    requires
        ascending(ports),
    ensures
        ascending(with),
        forall|other: u16| #[trigger]
            with.contains(other) <==> ports.contains(other) || other == port,
        forall|i: int| 0 <= i < with.len() ==> #[trigger] with[i] <= port || ports.contains(with[i]),
    decreases ports.len(),
{
    if ports.len() == 0 || ports.last() < port {
        let with = ports.push(port);
        assert forall|other: u16| #[trigger] with.contains(other) <==> ports.contains(other)
            || other == port by {
            lemma_push_contains(ports, port, other);
        }
        with
    } else if ports.last() == port {
        assert(ports.contains(port));
        ports
    } else {
        let front = ports.drop_last();
        let smaller = lemma_port_can_be_inserted(front, port);
        let with = smaller.push(ports.last());
        assert(ports =~= front.push(ports.last()));
        assert forall|i: int| 0 <= i < smaller.len() implies #[trigger] smaller[i]
            < ports.last() by {
            if front.contains(smaller[i]) {
                let j = front.index_of(smaller[i]);
                assert(ports[j] == smaller[i]);
            }
        }
        assert forall|other: u16| #[trigger] with.contains(other) <==> ports.contains(other)
            || other == port by {
            lemma_push_contains(smaller, ports.last(), other);
            lemma_push_contains(front, ports.last(), other);
            assert(smaller.contains(other) <==> front.contains(other) || other == port);
        }
        assert forall|i: int| 0 <= i < with.len() implies #[trigger] with[i] <= port
            || ports.contains(with[i]) by {
            assert(with.contains(with[i]));
        }
        with
    }
}

proof fn lemma_lists_can_be_merged(a: Seq<u16>, b: Seq<u16>) -> (ports: Seq<u16>)
    ensures
        merges(ports, a, b),
    decreases a.len() + b.len(),
{
    if b.len() > 0 {
        let rest = lemma_lists_can_be_merged(a, b.drop_last());
        let ports = lemma_port_can_be_inserted(rest, b.last());
        assert(b =~= b.drop_last().push(b.last()));
        assert forall|port: u16| #[trigger] ports.contains(port) <==> a.contains(port)
            || b.contains(port) by {
            lemma_push_contains(b.drop_last(), b.last(), port);
            assert(rest.contains(port) <==> a.contains(port) || b.drop_last().contains(port));
        }
        ports
    } else if a.len() > 0 {
        let rest = lemma_lists_can_be_merged(a.drop_last(), b);
        let ports = lemma_port_can_be_inserted(rest, a.last());
        assert(a =~= a.drop_last().push(a.last()));
        assert forall|port: u16| #[trigger] ports.contains(port) <==> a.contains(port)
            || b.contains(port) by {
            lemma_push_contains(a.drop_last(), a.last(), port);
            assert(rest.contains(port) <==> a.drop_last().contains(port) || b.contains(port));
        }
        ports
    } else {
        Seq::empty()
    }
}

/// Merged ports are the ports of the one list and of the other, all of them and no more, each
/// once and in ascending order.
pub proof fn lemma_merged_ports_are_all_ports_once(a: Seq<u16>, b: Seq<u16>)
    ensures
        merges(merged_ports(a, b), a, b),
        forall|port: u16| #[trigger]
            merged_ports(a, b).contains(port) <==> a.contains(port) || b.contains(port),
        forall|i: int, j: int|
            0 <= i < j < merged_ports(a, b).len() ==> #[trigger] merged_ports(a, b)[i]
                < #[trigger] merged_ports(a, b)[j],
{
    let ports = lemma_lists_can_be_merged(a, b);
    assert(merges(ports, a, b));
}

} // verus!
