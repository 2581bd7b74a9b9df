use uniswap_v3_state::decode::{decode_log, POOL_CREATED_TOPIC, SWAP_TOPIC};
use uniswap_v3_state::events::LogEvent;

fn word(last: &[u8], fill: u8) -> Vec<u8> {
    let mut w = vec![fill; 32 - last.len()];
    w.extend_from_slice(last);
    w
}

#[test]
fn pool_created_log() {
    let topics = vec![
        hex::decode(POOL_CREATED_TOPIC).unwrap(),
        word(&[0x11; 20], 0),
        word(&[0x22; 20], 0),
        word(&[0x0b, 0xb8], 0),
    ];
    let mut data = word(&[60], 0);
    data.extend(word(&[0x33; 20], 0));
    match decode_log(&topics, &data) {
        LogEvent::PoolCreated { token0, token1, fee, tick_spacing, pool } => {
            assert_eq!(token0, vec![0x11; 20]);
            assert_eq!(token1, vec![0x22; 20]);
            assert_eq!(fee, 3000);
            assert_eq!(tick_spacing, 60);
            assert_eq!(pool, vec![0x33; 20]);
        }
        _ => panic!("a pool creation"),
    }
    assert!(matches!(decode_log(&topics, &data[..40].to_vec()), LogEvent::Other));
}

#[test]
fn swap_log() {
    let topics = vec![hex::decode(SWAP_TOPIC).unwrap(), word(&[0xaa; 20], 0), word(&[0xbb; 20], 0)];
    let mut data = word(&[0xf6], 0xff);
    data.extend(word(&[100], 0));
    data.extend(word(&[1, 0], 0));
    data.extend(word(&[7], 0));
    data.extend(word(&[0xff, 0xff, 0xff, 0xfe], 0xff));
    match decode_log(&topics, &data) {
        LogEvent::Swap(s) => {
            assert_eq!(s.sender, "aa".repeat(20));
            assert_eq!(s.recipient, "bb".repeat(20));
            assert_eq!(s.amount_0, "-10");
            assert_eq!(s.amount_1, "100");
            assert_eq!(s.sqrt_price, "256");
            assert_eq!(s.liquidity, "7");
            assert_eq!(s.tick, -2);
        }
        _ => panic!("a swap"),
    }
}

#[test]
fn unknown_log_is_other() {
    let topics = vec![vec![0u8; 32]];
    assert!(matches!(decode_log(&topics, &vec![]), LogEvent::Other));
    assert!(matches!(decode_log(&vec![], &vec![]), LogEvent::Other));
}
