//! Client-side logic of an allocation: where to connect once the broker has
//! announced the port of a freshly granted session.
use vstd::prelude::*;
use vstd::string::*;

verus! {

/// The position of the last ':' in `addr`, or -1 when it has none.
pub open spec fn last_colon(addr: Seq<char>) -> int
    decreases addr.len(),
{
    if addr.len() == 0 {
        -1
    } else if addr.last() == ':' {
        addr.len() - 1
    } else {
        last_colon(addr.drop_last())
    }
}

/// The host part of an address written `host:port`: everything before its
/// last ':', or the whole address when it has no ':'.
pub open spec fn host_of(addr: Seq<char>) -> Seq<char> {
    if last_colon(addr) < 0 {
        addr
    } else {
        addr.take(last_colon(addr))
    }
}

/// The host that a granted session is reached on: the same host as the
/// broker the allocation was asked of, whose address is `allocator_addr`.
pub fn handoff_host(allocator_addr: &str) -> (r: String)
    ensures
        r@ == host_of(allocator_addr@),
{
    let n = allocator_addr.unicode_len();
    let mut i: usize = n;
    assert(allocator_addr@.take(n as int) =~= allocator_addr@);
    while i > 0
        invariant
            i <= n,
            n == allocator_addr@.len(),
            last_colon(allocator_addr@) == last_colon(allocator_addr@.take(i as int)),
        decreases i,
    {
        if allocator_addr.get_char(i - 1) == ':' {
            assert(allocator_addr@.take(i as int).last() == ':');
            return allocator_addr.substring_char(0, i - 1).to_owned();
        }
        assert(allocator_addr@.take(i as int).drop_last() =~= allocator_addr@.take(i - 1));
        i = i - 1;
    }
    proof {
        assert(allocator_addr@.take(0) =~= Seq::<char>::empty());
    }
    allocator_addr.to_owned()
}

} // verus!
