use zero_protocol::session::file_transfer::{FileTransfer, FileTransferManager, TransferState, MAX_TRANSFER_SIZE};

fn file_id(n: u8) -> [u8; 16] {
    [n; 16]
}

#[test]
fn test_small_file_auto_accepted() {
    let ft = FileTransfer::new_incoming(file_id(1), "small.txt".into(), 1024).unwrap();
    assert_eq!(ft.state, TransferState::Active);
}

#[test]
fn test_large_file_requires_approval() {
    let ft = FileTransfer::new_incoming(file_id(2), "big.iso".into(), 200 * 1024 * 1024).unwrap();
    assert_eq!(ft.state, TransferState::Pending);
}

#[test]
fn test_file_exceeding_max_rejected() {
    let result = FileTransfer::new_incoming(file_id(3), "huge.bin".into(), 5 * 1024 * 1024 * 1024);
    assert!(result.is_err());
}

#[test]
fn test_accept_pending_transfer() {
    let mut ft = FileTransfer::new_incoming(file_id(4), "big.zip".into(), 100 * 1024 * 1024).unwrap();
    assert_eq!(ft.state, TransferState::Pending);
    ft.accept().unwrap();
    assert_eq!(ft.state, TransferState::Active);
}

#[test]
fn test_cannot_accept_already_active() {
    let mut ft = FileTransfer::new_incoming(file_id(5), "small.txt".into(), 1024).unwrap();
    assert!(ft.accept().is_err()); // already Active
}

#[test]
fn test_sender_cannot_accept() {
    let mut ft = FileTransfer::new_outgoing(file_id(6), "out.txt".into(), 1024);
    assert!(ft.accept().is_err());
}

#[test]
fn test_single_chunk_completes_transfer() {
    let data = vec![0xABu8; 1024];
    let mut ft = FileTransfer::new_incoming(file_id(7), "f.bin".into(), 1024).unwrap();
    ft.receive_chunk(0, data.clone()).unwrap();
    assert_eq!(ft.state, TransferState::Completed);
    assert_eq!(ft.assemble().unwrap(), data);
}

#[test]
fn test_out_of_order_chunks_assembled_correctly() {
    let chunk_a = vec![0xAAu8; 512];
    let chunk_b = vec![0xBBu8; 512];
    let mut ft = FileTransfer::new_incoming(file_id(8), "f.bin".into(), 1024).unwrap();

    // Receive second chunk first, then first chunk
    ft.receive_chunk(512, chunk_b.clone()).unwrap();
    assert_eq!(ft.state, TransferState::Active);
    ft.receive_chunk(0, chunk_a.clone()).unwrap();
    assert_eq!(ft.state, TransferState::Completed);

    let assembled = ft.assemble().unwrap();
    assert_eq!(&assembled[0..512], chunk_a.as_slice());
    assert_eq!(&assembled[512..1024], chunk_b.as_slice());
}

#[test]
fn test_chunk_exceeding_file_boundary_rejected() {
    let mut ft = FileTransfer::new_incoming(file_id(9), "f.bin".into(), 1024).unwrap();
    let result = ft.receive_chunk(500, vec![0u8; 600]); // 500 + 600 = 1100 > 1024
    assert!(result.is_err());
}

#[test]
fn test_duplicate_chunk_ignored() {
    let chunk = vec![0xCCu8; 512];
    let mut ft = FileTransfer::new_incoming(file_id(10), "f.bin".into(), 1024).unwrap();
    ft.receive_chunk(0, chunk.clone()).unwrap();
    ft.receive_chunk(0, vec![0xFFu8; 512]).unwrap(); // duplicate — should not overwrite
    assert_eq!(&ft.received_chunks[&0], &chunk); // original preserved
}

#[test]
fn test_cancelled_transfer_rejects_chunks() {
    let mut ft = FileTransfer::new_incoming(file_id(12), "f.bin".into(), 1024).unwrap();
    ft.cancel();
    assert_eq!(ft.state, TransferState::Cancelled);
    let result = ft.receive_chunk(0, vec![0u8; 100]);
    assert!(result.is_err());
}

#[test]
fn test_assemble_returns_none_if_not_complete() {
    let ft = FileTransfer::new_incoming(file_id(13), "f.bin".into(), 1024).unwrap();
    assert!(ft.assemble().is_none());
}

#[test]
fn test_overlapping_chunks_rejected() {
    let mut ft = FileTransfer::new_incoming(file_id(14), "f.bin".into(), 1024).unwrap();
    ft.receive_chunk(0, vec![0u8; 100]).unwrap();

    let res = ft.receive_chunk(50, vec![0u8; 100]);
    assert!(res.is_err());
}

#[test]
fn transfer_error_messages() {
    let err = FileTransfer::new_incoming(file_id(20), "x".into(), MAX_TRANSFER_SIZE + 1).unwrap_err();
    assert_eq!(err, "File exceeds maximum allowed transfer size (4GB)");
    // Exactly the maximum is allowed.
    assert!(FileTransfer::new_incoming(file_id(21), "x".into(), MAX_TRANSFER_SIZE).is_ok());
    let mut ft = FileTransfer::new_incoming(file_id(22), "x".into(), 10).unwrap();
    assert_eq!(ft.receive_chunk(5, vec![0u8; 6]).unwrap_err(), "Chunk exceeds file boundary");
    ft.receive_chunk(0, vec![1u8; 4]).unwrap();
    assert_eq!(ft.receive_chunk(2, vec![0u8; 4]).unwrap_err(), "Overlapping chunk detected");
    ft.cancel();
    assert_eq!(ft.receive_chunk(4, vec![0u8; 1]).unwrap_err(), "Transfer is not active");
}

#[test]
fn bytes_transferred_counts_covered_bytes() {
    let mut ft = FileTransfer::new_incoming(file_id(23), "f".into(), 10).unwrap();
    ft.receive_chunk(6, vec![2u8; 4]).unwrap();
    assert_eq!(ft.bytes_transferred, 4);
    ft.receive_chunk(6, vec![3u8; 4]).unwrap(); // duplicate: nothing counted twice
    assert_eq!(ft.bytes_transferred, 4);
    ft.receive_chunk(0, vec![1u8; 6]).unwrap();
    assert_eq!(ft.bytes_transferred, 10);
    assert_eq!(ft.state, TransferState::Completed);
    assert_eq!(ft.assemble().unwrap(), vec![1, 1, 1, 1, 1, 1, 2, 2, 2, 2]);
}

#[test]
fn pending_transfer_rejects_chunks_until_accepted() {
    let mut ft = FileTransfer::new_incoming(file_id(24), "big".into(), 60 * 1024 * 1024).unwrap();
    assert!(ft.receive_chunk(0, vec![0u8; 10]).is_err());
    ft.accept().unwrap();
    assert!(ft.receive_chunk(0, vec![0u8; 10]).is_ok());
    assert!(ft.accept().is_err());
}

#[test]
fn manager_routes_by_file_id() {
    let mut m = FileTransferManager::new();
    m.register_outgoing(file_id(1), "out".into(), 4);
    m.register_incoming(file_id(2), "in".into(), 4).unwrap();
    assert!(m.register_incoming(file_id(3), "huge".into(), MAX_TRANSFER_SIZE + 1).is_err());
    assert!(m.get(&file_id(3)).is_none());
    assert_eq!(m.receive_chunk(&file_id(9), 0, vec![1]).unwrap_err(), "Transfer not found");
    assert_eq!(m.accept(&file_id(9)).unwrap_err(), "Transfer not found");
    m.receive_chunk(&file_id(2), 0, vec![7u8; 4]).unwrap();
    assert_eq!(m.get(&file_id(2)).unwrap().state, TransferState::Completed);
    assert_eq!(m.get(&file_id(1)).unwrap().state, TransferState::Active);
    assert!(m.get(&file_id(1)).unwrap().is_sender);
    m.cancel(&file_id(1));
    assert_eq!(m.get(&file_id(1)).unwrap().state, TransferState::Cancelled);
    assert!(m.accept(&file_id(2)).is_err());
}
