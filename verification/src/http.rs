//! The request the consumer writes on the winning connection.

use vstd::prelude::*;

verus! {

/// The bytes before the host name: `GET / HTTP/1.1\r\nHost: `.
pub open spec fn request_head() -> Seq<u8> {
    seq![
        71u8, 69u8, 84u8, 32u8, 47u8, 32u8,  // "GET / "
        72u8, 84u8, 84u8, 80u8, 47u8, 49u8, 46u8, 49u8,  // "HTTP/1.1"
        13u8, 10u8,  // CR LF
        72u8, 111u8, 115u8, 116u8, 58u8, 32u8,  // "Host: "
    ]
}

/// The bytes after the host name: `\r\nConnection: close\r\n\r\n`.
pub open spec fn request_tail() -> Seq<u8> {
    seq![
        13u8, 10u8,  // CR LF
        67u8, 111u8, 110u8, 110u8, 101u8, 99u8, 116u8, 105u8, 111u8, 110u8, 58u8,
        32u8,  // "Connection: "
        99u8, 108u8, 111u8, 115u8, 101u8,  // "close"
        13u8, 10u8, 13u8, 10u8,  // CR LF CR LF
    ]
}

/// Builds the plain-text request sent once a winner exists: a `GET /`
/// request line, a `Host:` header naming the target, and `Connection: close`.
pub fn request_bytes(host: &Vec<u8>) -> (r: Vec<u8>)
    ensures
        r@ == request_head() + host@ + request_tail(),
{
    let mut r: Vec<u8> = Vec::new();
    r.push(71u8);  // 'G'
    r.push(69u8);  // 'E'
    r.push(84u8);  // 'T'
    r.push(32u8);  // ' '
    r.push(47u8);  // '/'
    r.push(32u8);  // ' '
    r.push(72u8);  // 'H'
    r.push(84u8);  // 'T'
    r.push(84u8);  // 'T'
    r.push(80u8);  // 'P'
    r.push(47u8);  // '/'
    r.push(49u8);  // '1'
    r.push(46u8);  // '.'
    r.push(49u8);  // '1'
    r.push(13u8);  // CR
    r.push(10u8);  // LF
    r.push(72u8);  // 'H'
    r.push(111u8);  // 'o'
    r.push(115u8);  // 's'
    r.push(116u8);  // 't'
    r.push(58u8);  // ':'
    r.push(32u8);  // ' '
    assert(r@ =~= request_head());
    let mut i: usize = 0;
    while i < host.len()
        invariant
            i <= host@.len(),
            r@ == request_head() + host@.take(i as int),
        decreases host@.len() - i,
    {
        r.push(host[i]);
        i = i + 1;
        assert(r@ =~= request_head() + host@.take(i as int));
    }
    assert(host@.take(host@.len() as int) =~= host@);
    r.push(13u8);  // CR
    r.push(10u8);  // LF
    r.push(67u8);  // 'C'
    r.push(111u8);  // 'o'
    r.push(110u8);  // 'n'
    r.push(110u8);  // 'n'
    r.push(101u8);  // 'e'
    r.push(99u8);  // 'c'
    r.push(116u8);  // 't'
    r.push(105u8);  // 'i'
    r.push(111u8);  // 'o'
    r.push(110u8);  // 'n'
    r.push(58u8);  // ':'
    r.push(32u8);  // ' '
    r.push(99u8);  // 'c'
    r.push(108u8);  // 'l'
    r.push(111u8);  // 'o'
    r.push(115u8);  // 's'
    r.push(101u8);  // 'e'
    r.push(13u8);  // CR
    r.push(10u8);  // LF
    r.push(13u8);  // CR
    r.push(10u8);  // LF
    assert(r@ =~= request_head() + host@ + request_tail());
    r
}

} // verus!
