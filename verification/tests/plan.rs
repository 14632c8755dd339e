use masp_reward_schedule::schedule::{epoch_succ, migrate, resolve_token, ScheduledWrite};
use masp_reward_schedule::value::encode_asset_id;
use masp_reward_schedule::{MigrationError, TokenAddress, TokenConfig};

fn addr(bytes: &[u8]) -> TokenAddress {
    TokenAddress::Address(bytes.to_vec())
}

fn config(address: TokenAddress, denom: u8, precision: u128) -> TokenConfig {
    TokenConfig { address, denom, precision }
}

const P: u128 = 10_000_000;

#[test]
fn p6_example_scenario() {
    // token T, denomination 0, precision 10,000,000, target epoch 3
    let tokens = vec![config(addr(b"token-t"), 0, P)];
    let native = addr(b"native-token");
    let plan = migrate(&tokens, &native, 3).unwrap();
    // one precision record, then 3 conversion entries for each of 4 positions
    assert_eq!(plan.len(), 1 + 4 * 3);
    match &plan[0] {
        ScheduledWrite::TokenPrecision { token, precision } => {
            assert_eq!(token.ident, b"token-t".to_vec());
            assert_eq!(*precision, P);
        },
        _ => panic!("first write must be the precision record"),
    }
    let token = resolve_token(&addr(b"token-t")).unwrap();
    // position 0 block: epochs descend 2, 1, 0
    for (offset, expect_epoch) in [(1usize, 2u64), (2, 1), (3, 0)] {
        match &plan[offset] {
            ScheduledWrite::Conversion { epoch, pos, asset, value } => {
                assert_eq!(*epoch, expect_epoch);
                assert_eq!(*pos, 0);
                let here = encode_asset_id(&token, 0, 0, expect_epoch);
                assert_eq!(asset.bytes, here.bytes);
                // running sum telescopes: precision at the target epoch,
                // minus precision at this entry's epoch
                let at_target = encode_asset_id(&token, 0, 0, 3);
                assert_eq!(value.get(&at_target), P as i128);
                assert_eq!(value.get(&here), -(P as i128));
                assert_eq!(value.terms().len(), 2);
            },
            _ => panic!("expected a conversion entry"),
        }
    }
    // e = 2 holds exactly the one-step delta reward_delta(2)
    match &plan[1] {
        ScheduledWrite::Conversion { value, .. } => {
            let v3 = encode_asset_id(&token, 0, 0, 3);
            let v2 = encode_asset_id(&token, 0, 0, 2);
            assert_eq!(value.get(&v3), P as i128);
            assert_eq!(value.get(&v2), -(P as i128));
        },
        _ => unreachable!(),
    }
}

#[test]
fn p2_range_coverage() {
    let tokens = vec![config(addr(b"token-t"), 0, P)];
    let plan = migrate(&tokens, &addr(b"native-token"), 3).unwrap();
    for pos in 0u8..4 {
        let mut epochs: Vec<u64> = plan
            .iter()
            .filter_map(|w| match w {
                ScheduledWrite::Conversion { epoch, pos: p, .. } if *p == pos => Some(*epoch),
                _ => None,
            })
            .collect();
        epochs.sort();
        assert_eq!(epochs, vec![0, 1, 2]);
    }
}

#[test]
fn p3_empty_range() {
    let tokens = vec![config(addr(b"token-t"), 0, P)];
    let plan = migrate(&tokens, &addr(b"native-token"), 0).unwrap();
    assert_eq!(plan.len(), 1);
    assert!(matches!(&plan[0], ScheduledWrite::TokenPrecision { .. }));

    // the base token still gets both precision records
    let tokens = vec![config(addr(b"native-token"), 0, P)];
    let plan = migrate(&tokens, &addr(b"native-token"), 0).unwrap();
    assert_eq!(plan.len(), 2);
    assert!(matches!(&plan[0], ScheduledWrite::TokenPrecision { .. }));
    assert!(matches!(&plan[1], ScheduledWrite::BaseNativePrecision { .. }));
}

#[test]
fn p5_base_token_singling_out() {
    let tokens = vec![
        config(addr(b"other-token"), 0, P),
        config(addr(b"native-token"), 6, 25),
        config(TokenAddress::Ibc(b"channel-1".to_vec(), b"uosmo".to_vec()), 0, P),
    ];
    let plan = migrate(&tokens, &addr(b"native-token"), 2).unwrap();
    let base_records: Vec<u128> = plan
        .iter()
        .filter_map(|w| match w {
            ScheduledWrite::BaseNativePrecision { precision } => Some(*precision),
            _ => None,
        })
        .collect();
    assert_eq!(base_records, vec![25]);
}

#[test]
fn p4_determinism() {
    let build = || {
        vec![
            config(addr(b"native-token"), 0, 77),
            config(TokenAddress::Ibc(b"channel-2".to_vec(), b"uatom".to_vec()), 3, P),
        ]
    };
    let a = migrate(&build(), &addr(b"native-token"), 5).unwrap();
    let b = migrate(&build(), &addr(b"native-token"), 5).unwrap();
    assert_eq!(a.len(), b.len());
    for (wa, wb) in a.iter().zip(b.iter()) {
        match (wa, wb) {
            (
                ScheduledWrite::TokenPrecision { token: t1, precision: p1 },
                ScheduledWrite::TokenPrecision { token: t2, precision: p2 },
            ) => {
                assert_eq!(t1.ident, t2.ident);
                assert_eq!(p1, p2);
            },
            (
                ScheduledWrite::BaseNativePrecision { precision: p1 },
                ScheduledWrite::BaseNativePrecision { precision: p2 },
            ) => assert_eq!(p1, p2),
            (
                ScheduledWrite::Conversion { epoch: e1, pos: q1, asset: a1, value: v1 },
                ScheduledWrite::Conversion { epoch: e2, pos: q2, asset: a2, value: v2 },
            ) => {
                assert_eq!(e1, e2);
                assert_eq!(q1, q2);
                assert_eq!(a1.bytes, a2.bytes);
                let t1: Vec<(Vec<u8>, i128)> =
                    v1.terms().into_iter().map(|(a, c)| (a.bytes, c)).collect();
                let t2: Vec<(Vec<u8>, i128)> =
                    v2.terms().into_iter().map(|(a, c)| (a.bytes, c)).collect();
                assert_eq!(t1, t2);
            },
            _ => panic!("plans diverge in write kinds"),
        }
    }
}

#[test]
fn ibc_token_resolution() {
    let t = resolve_token(&TokenAddress::Ibc(b"channel-1".to_vec(), b"uosmo".to_vec())).unwrap();
    assert_eq!(t.ident, b"transfer/channel-1/uosmo".to_vec());
}

#[test]
fn address_parse_errors() {
    assert_eq!(resolve_token(&addr(b"")).unwrap_err(), MigrationError::AddressParseError);
    let empty_channel = TokenAddress::Ibc(b"".to_vec(), b"uosmo".to_vec());
    assert_eq!(resolve_token(&empty_channel).unwrap_err(), MigrationError::AddressParseError);
    let empty_base = TokenAddress::Ibc(b"channel-1".to_vec(), b"".to_vec());
    assert_eq!(resolve_token(&empty_base).unwrap_err(), MigrationError::AddressParseError);
    // the driver stops on the first malformed literal
    let tokens = vec![config(addr(b""), 0, P)];
    assert_eq!(
        migrate(&tokens, &addr(b"native-token"), 2).unwrap_err(),
        MigrationError::AddressParseError
    );
}

#[test]
fn precision_overflow_error() {
    let tokens = vec![config(addr(b"token-t"), 0, u128::MAX)];
    assert_eq!(
        migrate(&tokens, &addr(b"native-token"), 2).unwrap_err(),
        MigrationError::PrecisionOverflow
    );
    // the largest precision that fits the signed amount field still works
    let tokens = vec![config(addr(b"token-t"), 0, i128::MAX as u128)];
    assert!(migrate(&tokens, &addr(b"native-token"), 1).is_ok());
}

#[test]
fn epoch_successor() {
    assert_eq!(epoch_succ(5), Ok(6));
    assert_eq!(epoch_succ(u64::MAX), Err(MigrationError::EpochOverflow));
}

#[test]
fn distinct_identifiers_across_epochs_and_positions() {
    let token = resolve_token(&addr(b"token-t")).unwrap();
    let mut seen: Vec<Vec<u8>> = Vec::new();
    for pos in 0u8..4 {
        for epoch in 0u64..4 {
            let id = encode_asset_id(&token, 0, pos, epoch);
            assert!(!seen.contains(&id.bytes));
            seen.push(id.bytes);
        }
    }
}
