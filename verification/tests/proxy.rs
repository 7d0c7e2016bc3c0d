use azalea::proxy::{
    auth_accepted, auth_request, chosen_method, connect_reply, connect_request, greeting,
    name_reply_rest, ProxyAuth, ProxyError, ProxyMethod,
};

#[test]
fn proxy_greeting_and_method() {
    assert_eq!(greeting(false), vec![5, 1, 0]);
    assert_eq!(greeting(true), vec![5, 2, 0, 2]);
    assert_eq!(chosen_method(&[5, 0], false), Ok(ProxyMethod::NoAuthentication));
    assert_eq!(chosen_method(&[5, 2], true), Ok(ProxyMethod::UsernamePassword));
    assert_eq!(chosen_method(&[5, 2], false), Err(ProxyError::NoAcceptableMethod));
    assert_eq!(chosen_method(&[5, 0xff], true), Err(ProxyError::NoAcceptableMethod));
    assert_eq!(chosen_method(&[4, 0], true), Err(ProxyError::BadReply));
    assert_eq!(chosen_method(&[5], true), Err(ProxyError::BadReply));
}

#[test]
fn proxy_authentication() {
    let auth = ProxyAuth { username: "me".to_string(), password: "pw1".to_string() };
    assert_eq!(auth_request(&auth), Ok(vec![1, 2, b'm', b'e', 3, b'p', b'w', b'1']));
    let empty = ProxyAuth { username: "".to_string(), password: "x".to_string() };
    assert_eq!(auth_request(&empty), Err(ProxyError::BadLength));
    let long = ProxyAuth { username: "u".repeat(256), password: "x".to_string() };
    assert_eq!(auth_request(&long), Err(ProxyError::BadLength));
    assert_eq!(auth_accepted(&[1, 0]), Ok(()));
    assert_eq!(auth_accepted(&[1, 1]), Err(ProxyError::AuthenticationFailed));
    assert_eq!(auth_accepted(&[5, 0]), Err(ProxyError::BadReply));
}

#[test]
fn proxy_connect() {
    assert_eq!(
        connect_request(&[127, 0, 0, 1], 25565),
        Ok(vec![5, 1, 0, 1, 127, 0, 0, 1, 0x63, 0xdd])
    );
    let v6 = connect_request(&[0u8; 16], 1).unwrap();
    assert_eq!(v6.len(), 22);
    assert_eq!(v6[3], 4);
    assert_eq!(connect_request(&[1, 2, 3], 1), Err(ProxyError::BadLength));
    assert_eq!(connect_reply(&[5, 0, 0, 1]), Ok(6));
    assert_eq!(connect_reply(&[5, 0, 0, 4]), Ok(18));
    assert_eq!(connect_reply(&[5, 0, 0, 3]), Ok(1));
    assert_eq!(name_reply_rest(9), 11);
    assert_eq!(connect_reply(&[5, 5, 0, 1]), Err(ProxyError::ConnectFailed(5)));
    assert_eq!(connect_reply(&[5, 0, 0, 2]), Err(ProxyError::BadReply));
    assert_eq!(connect_reply(&[5, 0, 0]), Err(ProxyError::BadReply));
}
