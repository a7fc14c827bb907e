use black_ferox::black_pool::{BlackPoolBlock, BlackPoolBook, BlackPoolGrant};

fn black_block(black_addr: usize, black_size: usize) -> BlackPoolBlock {
    BlackPoolBlock { black_addr, black_size, black_align: 64 }
}

#[test]
fn black_pool_empty_request() {
    let mut black_book = BlackPoolBook::black_new();
    assert_eq!(black_book.black_grant(0), BlackPoolGrant::BlackEmpty);
}

#[test]
fn black_pool_fresh_when_nothing_held() {
    let mut black_book = BlackPoolBook::black_new();
    assert_eq!(black_book.black_grant(100), BlackPoolGrant::BlackFresh { black_bucket: 128 });
    assert_eq!(black_book.black_grant(1), BlackPoolGrant::BlackFresh { black_bucket: 64 });
}

#[test]
fn black_pool_reuses_last_given_back() {
    let mut black_book = BlackPoolBook::black_new();
    black_book.black_release(black_block(0x1000, 128));
    black_book.black_release(black_block(0x2000, 128));
    assert_eq!(
        black_book.black_grant(100),
        BlackPoolGrant::BlackReuse { black_bucket: 128, black_block: black_block(0x2000, 128) }
    );
    assert_eq!(
        black_book.black_grant(65),
        BlackPoolGrant::BlackReuse { black_bucket: 128, black_block: black_block(0x1000, 128) }
    );
    assert_eq!(black_book.black_grant(128), BlackPoolGrant::BlackFresh { black_bucket: 128 });
}

#[test]
fn black_pool_classes_are_separate() {
    let mut black_book = BlackPoolBook::black_new();
    black_book.black_release(black_block(0x1000, 256));
    assert_eq!(black_book.black_grant(64), BlackPoolGrant::BlackFresh { black_bucket: 64 });
    assert_eq!(
        black_book.black_grant(200),
        BlackPoolGrant::BlackReuse { black_bucket: 256, black_block: black_block(0x1000, 256) }
    );
}

#[test]
fn black_pool_ignores_empty_block() {
    let mut black_book = BlackPoolBook::black_new();
    black_book.black_release(black_block(0, 64));
    assert_eq!(black_book.black_grant(64), BlackPoolGrant::BlackFresh { black_bucket: 64 });
    assert!(black_book.black_drain().is_empty());
}

#[test]
fn black_pool_drain_hands_back_everything() {
    let mut black_book = BlackPoolBook::black_new();
    black_book.black_release(black_block(0x1000, 64));
    black_book.black_release(black_block(0x2000, 1024));
    black_book.black_release(black_block(0x3000, 64));
    let mut black_all: Vec<usize> = black_book.black_drain().iter().map(|b| b.black_addr).collect();
    black_all.sort();
    assert_eq!(black_all, vec![0x1000, 0x2000, 0x3000]);
    assert!(black_book.black_drain().is_empty());
    assert_eq!(black_book.black_grant(64), BlackPoolGrant::BlackFresh { black_bucket: 64 });
}

#[test]
fn black_pool_drain_keeps_order_within_a_class() {
    let mut black_book = BlackPoolBook::black_new();
    black_book.black_release(black_block(0x1000, 64));
    black_book.black_release(black_block(0x3000, 64));
    let black_addrs: Vec<usize> = black_book.black_drain().iter().map(|b| b.black_addr).collect();
    assert_eq!(black_addrs, vec![0x1000, 0x3000]);
}

#[test]
fn black_pool_oversized_request_takes_largest_class() {
    let mut black_book = BlackPoolBook::black_new();
    let black_max: usize = 2 * 1024 * 1024 * 1024;
    assert_eq!(
        black_book.black_grant(black_max + 1),
        BlackPoolGrant::BlackFresh { black_bucket: black_max }
    );
}
