//! The client's side of the SOCKS5 handshake, by which a connection is
//! made through a proxy: what to send, and what to make of the answers.

use vstd::prelude::*;
use vstd::utf8::encode_utf8;

verus! {

/// The name and the password that a proxy asks for.
#[derive(Clone, Debug, PartialEq, Eq)]
pub struct ProxyAuth {
    pub username: String,
    pub password: String,
}

/// Why the handshake with the proxy failed.
#[derive(Clone, Copy, Debug, PartialEq, Eq, Structural)]
pub enum ProxyError {
    /// The answer is not of the protocol.
    BadReply,
    /// The proxy takes none of the ways that the client offered to prove
    /// who it is.
    NoAcceptableMethod,
    /// The proxy refused the name and the password.
    AuthenticationFailed,
    /// The proxy could not connect; the byte is its reason.
    ConnectFailed(u8),
    /// A name, a password or an address has a length that cannot be sent.
    BadLength,
}

/// The way that the proxy chose for the client to prove who it is.
#[derive(Clone, Copy, Debug, PartialEq, Eq, Structural)]
pub enum ProxyMethod {
    /// Nothing is asked.
    NoAuthentication,
    /// A name and a password are asked.
    UsernamePassword,
}

/// The greeting: the version, and the ways that the client offers: none,
/// and name and password where it has them.
pub open spec fn spec_greeting(with_auth: bool) -> Seq<u8> {
    if with_auth {
        seq![5u8, 2u8, 0u8, 2u8]
    } else {
        seq![5u8, 1u8, 0u8]
    }
}

/// The greeting to send first.
pub fn greeting(with_auth: bool) -> (r: Vec<u8>)
    ensures
        r@ == spec_greeting(with_auth),
{
    let mut out: Vec<u8> = Vec::new();
    out.push(5);
    if with_auth {
        out.push(2);
        out.push(0);
        out.push(2);
        proof {
            assert(out@ =~= spec_greeting(with_auth));
        }
    } else {
        out.push(1);
        out.push(0);
        proof {
            assert(out@ =~= spec_greeting(with_auth));
        }
    }
    out
}

/// What the proxy's answer to the greeting means: the two bytes are the
/// version and the way chosen, which must be one that was offered.
pub open spec fn spec_method(reply: Seq<u8>, with_auth: bool) -> Result<ProxyMethod, ProxyError> {
    if reply.len() != 2 || reply[0] != 5 {
        Err(ProxyError::BadReply)
    } else if reply[1] == 0 {
        Ok(ProxyMethod::NoAuthentication)
    } else if reply[1] == 2 && with_auth {
        Ok(ProxyMethod::UsernamePassword)
    } else {
        Err(ProxyError::NoAcceptableMethod)
    }
}

/// Reads the proxy's answer to the greeting.
pub fn chosen_method(reply: &[u8], with_auth: bool) -> (r: Result<ProxyMethod, ProxyError>)
    ensures
        r == spec_method(reply@, with_auth),
{
    if reply.len() != 2 || reply[0] != 5 {
        Err(ProxyError::BadReply)
    } else if reply[1] == 0 {
        Ok(ProxyMethod::NoAuthentication)
    } else if reply[1] == 2 && with_auth {
        Ok(ProxyMethod::UsernamePassword)
    } else {
        Err(ProxyError::NoAcceptableMethod)
    }
}

/// The request that proves who the client is: the version of the
/// sub-protocol, then the name and the password, each after its length.
pub open spec fn spec_auth_request(username: Seq<u8>, password: Seq<u8>) -> Seq<u8> {
    seq![1u8, username.len() as u8] + username + seq![password.len() as u8] + password
}

/// The request that proves who the client is. Nothing where the name or
/// the password is empty or longer than 255 bytes.
pub fn auth_request(auth: &ProxyAuth) -> (r: Result<Vec<u8>, ProxyError>)
    ensures
        r is Ok <==> 1 <= encode_utf8(auth.username@).len() <= 255 && 1 <= encode_utf8(
            auth.password@,
        ).len() <= 255,
        r matches Ok(bytes) ==> bytes@ == spec_auth_request(
            encode_utf8(auth.username@),
            encode_utf8(auth.password@),
        ),
        r matches Err(e) ==> e == ProxyError::BadLength,
{
    let username = auth.username.as_str().as_bytes();
    let password = auth.password.as_str().as_bytes();
    if username.len() == 0 || username.len() > 255 || password.len() == 0 || password.len()
        > 255 {
        return Err(ProxyError::BadLength);
    }
    let mut out: Vec<u8> = Vec::new();
    out.push(1);
    out.push(username.len() as u8);
    out.extend_from_slice(username);
    out.push(password.len() as u8);
    out.extend_from_slice(password);
    proof {
        assert(out@ =~= spec_auth_request(username@, password@));
    }
    Ok(out)
}

/// Whether the proxy took the name and the password: its answer is the
/// sub-protocol's version and a zero.
pub fn auth_accepted(reply: &[u8]) -> (r: Result<(), ProxyError>)
    ensures
        r == if reply@.len() != 2 || reply@[0] != 1 {
            Err::<(), ProxyError>(ProxyError::BadReply)
        } else if reply@[1] != 0 {
            Err::<(), ProxyError>(ProxyError::AuthenticationFailed)
        } else {
            Ok::<(), ProxyError>(())
        },
{
    if reply.len() != 2 || reply[0] != 1 {
        Err(ProxyError::BadReply)
    } else if reply[1] != 0 {
        Err(ProxyError::AuthenticationFailed)
    } else {
        Ok(())
    }
}

/// The request to connect to the address `ip`, of 4 bytes or of 16, at
/// `port`: the version, the command, a zero, the kind of address, the
/// address, and the port with its high byte first.
pub open spec fn spec_connect_request(ip: Seq<u8>, port: u16) -> Seq<u8> {
    seq![
        5u8,
        1u8,
        0u8,
        if ip.len() == 4 {
            1u8
        } else {
            4u8
        },
    ] + ip + seq![(port / 256) as u8, (port % 256) as u8]
}

/// The request to connect to an address. Nothing where the address has
/// neither 4 bytes nor 16.
pub fn connect_request(ip: &[u8], port: u16) -> (r: Result<Vec<u8>, ProxyError>)
    ensures
        r is Ok <==> ip@.len() == 4 || ip@.len() == 16,
        r matches Ok(bytes) ==> bytes@ == spec_connect_request(ip@, port),
        r matches Err(e) ==> e == ProxyError::BadLength,
{
    if ip.len() != 4 && ip.len() != 16 {
        return Err(ProxyError::BadLength);
    }
    let mut out: Vec<u8> = Vec::new();
    out.push(5);
    out.push(1);
    out.push(0);
    out.push(if ip.len() == 4 { 1 } else { 4 });
    out.extend_from_slice(ip);
    out.push((port / 256) as u8);
    out.push((port % 256) as u8);
    proof {
        assert(out@ =~= spec_connect_request(ip@, port));
    }
    Ok(out)
}

/// What the first four bytes of the proxy's answer to the request mean:
/// how many bytes of the answer are still to come, the address that the
/// proxy bound and its port, or why the proxy could not connect. For a
/// name as address the count is that of the byte with the name's length
/// alone; the name and the port follow it.
pub open spec fn spec_connect_reply(head: Seq<u8>) -> Result<usize, ProxyError> {
    if head.len() != 4 || head[0] != 5 {
        Err(ProxyError::BadReply)
    } else if head[1] != 0 {
        Err(ProxyError::ConnectFailed(head[1]))
    } else if head[3] == 1 {
        Ok(6usize)
    } else if head[3] == 4 {
        Ok(18usize)
    } else if head[3] == 3 {
        Ok(1usize)
    } else {
        Err(ProxyError::BadReply)
    }
}

/// Reads the first four bytes of the proxy's answer to the request.
pub fn connect_reply(head: &[u8]) -> (r: Result<usize, ProxyError>)
    ensures
        r == spec_connect_reply(head@),
{
    if head.len() != 4 || head[0] != 5 {
        Err(ProxyError::BadReply)
    } else if head[1] != 0 {
        Err(ProxyError::ConnectFailed(head[1]))
    } else if head[3] == 1 {
        Ok(6)
    } else if head[3] == 4 {
        Ok(18)
    } else if head[3] == 3 {
        Ok(1)
    } else {
        Err(ProxyError::BadReply)
    }
}

/// How many bytes follow the length byte of a name in the proxy's answer:
/// the name and the two bytes of the port.
pub fn name_reply_rest(length: u8) -> (r: usize)
    ensures
        r == length + 2,
{
    length as usize + 2
}

} // verus!
