use snap_coin::api_server::{paginate, Server, PAGE_SIZE};
use snap_coin::sync::{needs_download, should_report_progress, skip_tx_hashing};

#[test]
fn server_keeps_port_and_chain() {
    let server = Server::new(8080, "chain");
    assert_eq!(server.port(), 8080);
    assert_eq!(*server.blockchain(), "chain");
}

#[test]
fn pages_of_two_hundred() {
    let items: Vec<u32> = (0..450).collect();
    let (page, next) = paginate(&items, 0);
    assert_eq!(page.len(), PAGE_SIZE as usize);
    assert_eq!(page[0], 0);
    assert_eq!(next, Some(1));
    let (page, next) = paginate(&items, 1);
    assert_eq!(page[0], 200);
    assert_eq!(next, Some(2));
    let (page, next) = paginate(&items, 2);
    assert_eq!(page, &items[400..450]);
    assert_eq!(next, None);
    let (page, next) = paginate(&items, 7);
    assert!(page.is_empty());
    assert_eq!(next, None);
}

#[test]
fn full_last_page_still_offers_next() {
    let items: Vec<u32> = (0..400).collect();
    let (page, next) = paginate(&items, 1);
    assert_eq!(page.len(), 200);
    assert_eq!(next, Some(2));
}

#[test]
fn sync_decisions() {
    assert!(needs_download(3, 10));
    assert!(!needs_download(10, 10));
    assert!(!needs_download(12, 10));
    assert!(skip_tx_hashing(501, false));
    assert!(!skip_tx_hashing(500, false));
    assert!(!skip_tx_hashing(9000, true));
    assert!(should_report_progress(2000, 5000));
    assert!(should_report_progress(17, 17));
    assert!(!should_report_progress(999, 5000));
}
