//! Request building, base64 and hex codecs, and the pool surface.

use p2p_core::client::{
    base64_encode, build_basic_auth, create_post_request, create_request, create_request_ex,
    response_to_result, HttpMethod, Network, RestError, TimeOut,
};
use p2p_core::msg::{BlockHeader, Transaction};
use p2p_core::pool::{
    from_hex, PoolHandler, PoolInfoHandler, PoolPushHandler, TransactionPool,
};

fn head() -> BlockHeader {
    BlockHeader {
        hash: 1,
        height: 2,
        total_difficulty: 3,
    }
}

#[test]
fn timeouts_carry_their_seconds() {
    let t = TimeOut::new(1, 2, 3);
    assert_eq!((t.connect, t.read, t.write), (1, 2, 3));
    let d = TimeOut::default();
    assert_eq!((d.connect, d.read, d.write), (20, 20, 20));
}

#[test]
fn base64_matches_the_reference_vectors() {
    assert_eq!(base64_encode(&b"".to_vec()), b"".to_vec());
    assert_eq!(base64_encode(&b"f".to_vec()), b"Zg==".to_vec());
    assert_eq!(base64_encode(&b"fo".to_vec()), b"Zm8=".to_vec());
    assert_eq!(base64_encode(&b"foo".to_vec()), b"Zm9v".to_vec());
    assert_eq!(base64_encode(&b"foob".to_vec()), b"Zm9vYg==".to_vec());
    assert_eq!(base64_encode(&b"fooba".to_vec()), b"Zm9vYmE=".to_vec());
    assert_eq!(base64_encode(&b"foobar".to_vec()), b"Zm9vYmFy".to_vec());
}

#[test]
fn basic_auth_is_the_encoded_key_secret_pair() {
    let auth = build_basic_auth(&b"mwcmain".to_vec(), &b"secret".to_vec());
    assert_eq!(auth, b"Basic bXdjbWFpbjpzZWNyZXQ=".to_vec());
}

#[test]
fn requests_check_the_url_through_the_real_parser() {
    let ok = create_request(
        "http://127.0.0.1:3413/v1/pool",
        HttpMethod::Get,
        None,
        None,
        Network::Mainnet,
    );
    let req = ok.unwrap();
    assert_eq!(req.method, HttpMethod::Get);
    assert_eq!(req.uri, "http://127.0.0.1:3413/v1/pool");
    assert!(req.authorization.is_none());

    let bad = create_request(
        "http://exa mple.com/",
        HttpMethod::Get,
        None,
        None,
        Network::Mainnet,
    );
    assert!(matches!(bad, Err(RestError::Argument { .. })));
}

#[test]
fn requests_authenticate_per_network() {
    let req = create_request(
        "http://localhost/v1",
        HttpMethod::Get,
        Some(b"secret".to_vec()),
        None,
        Network::Mainnet,
    )
    .unwrap();
    assert_eq!(
        req.authorization.unwrap(),
        b"Basic bXdjbWFpbjpzZWNyZXQ=".to_vec()
    );
    let req = create_request(
        "http://localhost/v1",
        HttpMethod::Get,
        Some(b"secret".to_vec()),
        None,
        Network::Other,
    )
    .unwrap();
    assert_eq!(req.authorization.unwrap(), b"Basic bXdjOnNlY3JldA==".to_vec());
}

#[test]
fn post_requests_carry_their_body() {
    let req = create_post_request(
        "http://localhost/v1/pool/push_tx",
        None,
        "{\"tx_hex\":\"00\"}".to_owned(),
        Network::Other,
    )
    .unwrap();
    assert_eq!(req.method, HttpMethod::Post);
    assert_eq!(req.body.unwrap(), "{\"tx_hex\":\"00\"}");
    // no secret, no header, even with an explicit key
    let req = create_request_ex(
        "http://localhost/v1",
        HttpMethod::Post,
        None,
        Some(b"mwc".to_vec()),
        None,
    )
    .unwrap();
    assert!(req.authorization.is_none());
}

#[test]
fn responses_succeed_only_on_success_codes() {
    assert_eq!(response_to_result(200, "ok".to_owned()).unwrap(), "ok");
    assert_eq!(response_to_result(299, "ok".to_owned()).unwrap(), "ok");
    assert!(matches!(
        response_to_result(404, "missing".to_owned()),
        Err(RestError::RequestError { .. })
    ));
    assert!(matches!(
        response_to_result(199, String::new()),
        Err(RestError::RequestError { .. })
    ));
}

#[test]
fn hex_decoding_is_exact_and_total_on_errors() {
    assert_eq!(from_hex(&b"00ff10".to_vec()).unwrap(), vec![0, 255, 16]);
    assert_eq!(from_hex(&b"dEaDbEeF".to_vec()).unwrap(), vec![0xDE, 0xAD, 0xBE, 0xEF]);
    assert_eq!(from_hex(&b"".to_vec()).unwrap(), Vec::<u8>::new());
    // odd length and non-digits are refused
    assert!(from_hex(&b"abc".to_vec()).is_none());
    assert!(from_hex(&b"zz".to_vec()).is_none());
}

#[test]
fn pool_sizes_and_entries_reflect_the_pools() {
    let mut pool = TransactionPool::new(Some(head()));
    pool.add_to_pool(
        Transaction {
            body: vec![1],
            base_fee: 0,
        },
        false,
        &head(),
    );
    pool.add_to_pool(
        Transaction {
            body: vec![2],
            base_fee: 0,
        },
        true,
        &head(),
    );
    let handler = PoolHandler { tx_pool: Some(pool) };
    assert_eq!(handler.get_pool_size().unwrap(), 2);
    assert_eq!(handler.get_stempool_size().unwrap(), 1);
    let entries = handler.get_unconfirmed_transactions().unwrap();
    assert_eq!(entries.len(), 1);
    assert_eq!(entries[0].tx.body, vec![1]);

    let empty = PoolHandler { tx_pool: None };
    assert!(empty.get_pool_size().is_err());
    assert!(empty.get_stempool_size().is_err());
    assert!(empty.get_unconfirmed_transactions().is_err());
}

#[test]
fn push_transaction_stems_unless_fluffed() {
    let mut handler = PoolHandler {
        tx_pool: Some(TransactionPool::new(Some(head()))),
    };
    handler.push_transaction(
        Transaction {
            body: vec![1],
            base_fee: 0,
        },
        None,
    )
    .unwrap();
    handler.push_transaction(
        Transaction {
            body: vec![2],
            base_fee: 0,
        },
        Some(true),
    )
    .unwrap();
    let pool = handler.tx_pool.as_ref().unwrap();
    assert_eq!(pool.stempool.len(), 1);
    assert_eq!(pool.txpool.len(), 1);

    // without a chain head the push is an internal error
    let mut headless = PoolHandler {
        tx_pool: Some(TransactionPool::new(None)),
    };
    assert!(headless.push_transaction(
        Transaction {
            body: vec![3],
            base_fee: 0,
        },
        None,
    )
    .is_err());
}

#[test]
fn update_pool_decodes_hex_and_inserts() {
    let mut push = PoolPushHandler {
        tx_pool: Some(TransactionPool::new(Some(head()))),
    };
    push.update_pool(&b"00ff".to_vec(), false).unwrap();
    {
        let pool = push.tx_pool.as_ref().unwrap();
        assert_eq!(pool.stempool.len(), 1);
        assert_eq!(pool.stempool[0].tx.body, vec![0, 255]);
    }
    push.update_pool(&b"0a".to_vec(), true).unwrap();
    {
        let pool = push.tx_pool.as_ref().unwrap();
        assert_eq!(pool.txpool.len(), 1);
        assert_eq!(pool.txpool[0].tx.body, vec![10]);
    }
    assert!(matches!(
        push.update_pool(&b"xyz".to_vec(), false),
        Err(RestError::RequestError { .. })
    ));

    let mut gone = PoolPushHandler { tx_pool: None };
    assert!(matches!(
        gone.update_pool(&b"00".to_vec(), false),
        Err(RestError::Internal { .. })
    ));
}

#[test]
fn pool_info_reports_the_total() {
    let mut pool = TransactionPool::new(Some(head()));
    pool.add_to_pool(
        Transaction {
            body: vec![1],
            base_fee: 0,
        },
        false,
        &head(),
    );
    let info = PoolInfoHandler { tx_pool: Some(pool) };
    assert_eq!(info.pool_info().unwrap().pool_size, 1);
}
