use vstd::prelude::*;

use crate::server::HandshakeRequest;

verus! {

/// The start of a GET request line.
pub open spec fn get_prefix() -> Seq<u8> {
    seq![71u8, 69u8, 84u8, 32u8]
}

/// The header that carries the protocol version.
pub open spec fn version_key() -> Seq<u8> {
    seq![83u8, 101u8, 99u8, 45u8, 87u8, 101u8, 98u8, 83u8, 111u8, 99u8, 107u8, 101u8, 116u8, 45u8, 86u8, 101u8, 114u8, 115u8, 105u8, 111u8, 110u8, 58u8, 32u8]
}

/// The header that names the host.
pub open spec fn host_key() -> Seq<u8> {
    seq![72u8, 111u8, 115u8, 116u8, 58u8, 32u8]
}

/// The header that carries the handshake key.
pub open spec fn key_key() -> Seq<u8> {
    seq![83u8, 101u8, 99u8, 45u8, 87u8, 101u8, 98u8, 83u8, 111u8, 99u8, 107u8, 101u8, 116u8, 45u8, 75u8, 101u8, 121u8, 58u8, 32u8]
}

/// The index of the first CR LF from `i` on, or the length when none.
pub open spec fn line_end(b: Seq<u8>, i: int) -> int
    decreases b.len() - i,
{
    if i + 1 >= b.len() {
        b.len() as int
    } else if b[i] == 13u8 && b[i + 1] == 10u8 {
        i
    } else {
        line_end(b, i + 1)
    }
}

pub open spec fn has_prefix_at(b: Seq<u8>, i: int, p: Seq<u8>) -> bool {
    0 <= i && i + p.len() <= b.len() && b.subrange(i, i + p.len()) == p
}

/// The value of the first line from `i` on that starts with `key`: the
/// rest of that line.
pub open spec fn find_header(b: Seq<u8>, key: Seq<u8>, i: int) -> Option<Seq<u8>>
    decreases b.len() - i,
{
    if i < 0 || i >= b.len() {
        None
    } else {
        let e = line_end(b, i);
        if has_prefix_at(b, i, key) && i + key.len() <= e {
            Some(b.subrange(i + key.len(), e))
        } else if i <= e && e + 2 <= b.len() {
            find_header(b, key, e + 2)
        } else {
            None
        }
    }
}

/// Where the header lines start: after the request line.
pub open spec fn headers_start(b: Seq<u8>) -> int {
    line_end(b, 0) + 2
}

fn get_prefix_bytes() -> (r: Vec<u8>)
    ensures
        r@ == get_prefix(),
{
    let r: Vec<u8> = vec![71u8, 69u8, 84u8, 32u8];
    proof {
        assert(r@ =~= get_prefix());
    }
    r
}

fn version_key_bytes() -> (r: Vec<u8>)
    ensures
        r@ == version_key(),
{
    let r: Vec<u8> = vec![83u8, 101u8, 99u8, 45u8, 87u8, 101u8, 98u8, 83u8, 111u8, 99u8, 107u8, 101u8, 116u8, 45u8, 86u8, 101u8, 114u8, 115u8, 105u8, 111u8, 110u8, 58u8, 32u8];
    proof {
        assert(r@ =~= version_key());
    }
    r
}

fn host_key_bytes() -> (r: Vec<u8>)
    ensures
        r@ == host_key(),
{
    let r: Vec<u8> = vec![72u8, 111u8, 115u8, 116u8, 58u8, 32u8];
    proof {
        assert(r@ =~= host_key());
    }
    r
}

fn key_key_bytes() -> (r: Vec<u8>)
    ensures
        r@ == key_key(),
{
    let r: Vec<u8> = vec![83u8, 101u8, 99u8, 45u8, 87u8, 101u8, 98u8, 83u8, 111u8, 99u8, 107u8, 101u8, 116u8, 45u8, 75u8, 101u8, 121u8, 58u8, 32u8];
    proof {
        assert(r@ =~= key_key());
    }
    r
}

fn line_end_exec(b: &Vec<u8>, i: usize) -> (r: usize)
    requires
        i <= b.len(),
    ensures
        r == line_end(b@, i as int),
        i <= r <= b.len(),
{
    let mut j: usize = i;
    while j < b.len() && b.len() - j > 1
        invariant
            i <= j <= b.len(),
            line_end(b@, j as int) == line_end(b@, i as int),
        decreases b.len() - j,
    {
        if b[j] == 13u8 && b[j + 1] == 10u8 {
            return j;
        }
        j = j + 1;
    }
    b.len()
}

fn prefix_at(b: &Vec<u8>, i: usize, p: &Vec<u8>) -> (r: bool)
    ensures
        r == has_prefix_at(b@, i as int, p@),
{
    if i > b.len() || p.len() > b.len() - i {
        return false;
    }
    let mut k: usize = 0;
    while k < p.len()
        invariant
            k <= p.len(),
            i + p.len() <= b.len(),
            forall|m: int| 0 <= m < k ==> b@[i + m] == p@[m],
        decreases p.len() - k,
    {
        if b[i + k] != p[k] {
            proof {
                assert(b@.subrange(i as int, i + p.len())[k as int] != p@[k as int]);
            }
            return false;
        }
        k = k + 1;
    }
    proof {
        assert(b@.subrange(i as int, i + p.len()) =~= p@);
    }
    true
}

fn copy_range(b: &Vec<u8>, lo: usize, hi: usize) -> (r: Vec<u8>)
    requires
        lo <= hi <= b.len(),
    ensures
        r@ == b@.subrange(lo as int, hi as int),
{
    let mut out: Vec<u8> = Vec::new();
    let mut k: usize = lo;
    while k < hi
        invariant
            lo <= k <= hi,
            hi <= b.len(),
            out@ == b@.subrange(lo as int, k as int),
        decreases hi - k,
    {
        out.push(b[k]);
        k = k + 1;
        proof {
            assert(out@ =~= b@.subrange(lo as int, k as int));
        }
    }
    out
}

/// The value of header `key` in the lines from `start` on.
pub fn header_value(b: &Vec<u8>, key: &Vec<u8>, start: usize) -> (r: Option<Vec<u8>>)
    ensures
        match r {
            Some(v) => find_header(b@, key@, start as int) == Some(v@),
            None => find_header(b@, key@, start as int) is None,
        },
{
    let mut i: usize = start;
    while i < b.len()
        invariant
            start <= i,
            find_header(b@, key@, i as int) == find_header(b@, key@, start as int),
        decreases b.len() - i,
    {
        let e = line_end_exec(b, i);
        if prefix_at(b, i, key) && i + key.len() <= e {
            return Some(copy_range(b, i + key.len(), e));
        }
        if b.len() - e < 2 {
            proof {
                assert(find_header(b@, key@, e + 2) is None);
            }
            return None;
        }
        i = e + 2;
    }
    None
}

/// Reads the fields the server checks out of a raw handshake request:
/// whether the request line is a GET, and the version, host and key
/// headers, each the first line that starts with its name.
pub fn parse_handshake(b: &Vec<u8>) -> (r: HandshakeRequest)
    ensures
        r.is_get == has_prefix_at(b@, 0, get_prefix()),
        crate::server::opt_view(r.version) == find_header(b@, version_key(), headers_start(b@)),
        crate::server::opt_view(r.host) == find_header(b@, host_key(), headers_start(b@)),
        crate::server::opt_view(r.key) == find_header(b@, key_key(), headers_start(b@)),
{
    let is_get = prefix_at(b, 0, &get_prefix_bytes());
    let e = line_end_exec(b, 0);
    let start: usize = if b.len() - e >= 2 {
        e + 2
    } else {
        b.len()
    };
    proof {
        if b.len() - e < 2 {
            assert(find_header(b@, version_key(), headers_start(b@)) is None);
            assert(find_header(b@, host_key(), headers_start(b@)) is None);
            assert(find_header(b@, key_key(), headers_start(b@)) is None);
        }
    }
    let version = header_value(b, &version_key_bytes(), start);
    let host = header_value(b, &host_key_bytes(), start);
    let key = header_value(b, &key_key_bytes(), start);
    HandshakeRequest { is_get, version, host, key }
}

} // verus!
