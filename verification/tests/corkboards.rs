use bittorrent::corkboard;
use bittorrent::data_proxy::{DataProxy, Span};
use bittorrent::download::corkboard::metadata_retriever::{ConnectStep, PeerStep, Retrieval};
use bittorrent::download::corkboard::monitor::Statistics;
use bittorrent::download::corkboard::peer_locator::tracker_wait;
use bittorrent::download::corkboard::peers::{is_among, PeerTable, UNMEASURED};
use bittorrent::download::corkboard::seeder::{
    answer, can_answer, peer_id_text, served_bitfield, SeederSession, SeederStep,
};
use bittorrent::download::corkboard::watchdog::add_peer;
use bittorrent::download::corkboard::worker::{
    find_next_piece, finalize_download, search_for_peer, LoopAction, PeerSearchResult,
    Worker, EMPTY_PEER_WAIT, MAX_PEER_USES,
};
use bittorrent::download::corkboard::{
    Benchmark, Config, Corkboard, Peer, PeerState, PieceLocation, PieceState,
};
use bittorrent::download::{assemble_file, first_peer, piece_outcome, PieceOutcome};
use bittorrent::error::bterror;
use bittorrent::info::{FileInfo, Info, MetaInfo};
use bittorrent::net::{Ipv4Addr, SocketAddr, SocketAddrV4};
use bittorrent::peer::message::{HandshakeMessage, PeerMessage, RequestMessage};
use bittorrent::util::sha1_hash;

fn address(n: u32) -> SocketAddr {
    SocketAddr::V4(SocketAddrV4 {
        ip: Ipv4Addr { bits: n },
        port: 6881,
    })
}

fn torrent(pieces: &[&[u8]], length: usize) -> MetaInfo {
    MetaInfo {
        announce_list: vec![],
        info: Info {
            name: "t".to_string(),
            piece_length: 4,
            pieces: pieces.iter().map(|data| sha1_hash(data)).collect(),
            file_info: FileInfo::Length(length),
        },
    }
}

fn board() -> Corkboard {
    Corkboard::new(torrent(&[b"aaaa", b"bbbb", b"cc"], 10)).unwrap()
}

fn state_of(board: &Corkboard, n: u32) -> PeerState {
    board.peers.get(address(n)).unwrap().state
}

fn with_peer(board: &mut Corkboard, n: u32, state: PeerState, performance: Option<u64>, attempts: usize) {
    let mut peer = Peer::new();
    peer.state = state;
    peer.performance = performance;
    peer.connection_attempts = attempts;
    board.peers.set(address(n), peer);
}

#[test]
fn the_best_peer_is_chosen() {
    let mut board = board();
    assert_eq!(
        search_for_peer(&mut board, None, 0),
        PeerSearchResult::WaitThenRefetch(EMPTY_PEER_WAIT)
    );
    with_peer(&mut board, 1, PeerState::Fresh, None, 3);
    with_peer(&mut board, 2, PeerState::Fresh, None, 1);
    with_peer(&mut board, 3, PeerState::Active(false), Some(10), 9);
    with_peer(&mut board, 4, PeerState::Active(false), Some(20), 9);
    with_peer(&mut board, 5, PeerState::Active(true), Some(90), 0);
    for expected in [4, 3, 2, 1] {
        assert_eq!(
            search_for_peer(&mut board, None, 0),
            PeerSearchResult::ConnectNew(address(expected))
        );
        assert_eq!(state_of(&board, expected), PeerState::Connecting);
    }
    assert_eq!(board.peers.get(address(1)).unwrap().connection_attempts, 4);
    assert_eq!(
        search_for_peer(&mut board, None, 0),
        PeerSearchResult::WaitThenRefetch(1000)
    );
}

#[test]
fn a_connection_is_reviewed() {
    let mut board = board();
    with_peer(&mut board, 1, PeerState::Active(true), None, 1);
    let active = Some(address(1));
    assert_eq!(search_for_peer(&mut board, active, 0), PeerSearchResult::Reuse);
    assert_eq!(
        search_for_peer(&mut board, active, MAX_PEER_USES),
        PeerSearchResult::SeverThenRefetch
    );
    assert_eq!(state_of(&board, 1), PeerState::Active(false));
    board.peers.set_state(address(1), PeerState::Fresh);
    assert_eq!(
        search_for_peer(&mut board, active, 0),
        PeerSearchResult::PromptRefetch
    );
    for (id, data) in [b"aaaa".to_vec(), b"bbbb".to_vec(), b"cc".to_vec()].into_iter().enumerate() {
        board.set_piece_state(id, PieceState::Fetched(PieceLocation::Memory(data)));
    }
    assert_eq!(search_for_peer(&mut board, active, 0), PeerSearchResult::Exit);
    assert!(board.finishing);
    assert_eq!(state_of(&board, 1), PeerState::Active(false));
}

#[test]
fn pieces_are_taken_up() {
    let mut board = board();
    with_peer(&mut board, 1, PeerState::Active(true), None, 1);
    assert_eq!(
        find_next_piece(&mut board, address(1), &vec![false, true, true]),
        Some(1)
    );
    assert!(board.pieces[1].is_in_progress());
    assert_eq!(
        find_next_piece(&mut board, address(1), &vec![false, true]),
        None
    );
    assert_eq!(state_of(&board, 1), PeerState::Superceded);
    board.peers.set_state(address(1), PeerState::Active(true));
    assert_eq!(find_next_piece(&mut board, address(1), &vec![]), None);
    assert_eq!(state_of(&board, 1), PeerState::Superceded);
    board.set_piece_state(0, PieceState::InProgress);
    assert_eq!(
        find_next_piece(&mut board, address(1), &vec![true, true, true]),
        Some(2)
    );
    assert_eq!(
        find_next_piece(&mut board, address(1), &vec![true, true, true]),
        Some(0)
    );
    board.set_piece_state(0, PieceState::Fetched(PieceLocation::Memory(vec![])));
    assert_eq!(
        find_next_piece(&mut board, address(1), &vec![true, true, true]),
        Some(1)
    );
}

#[test]
fn downloads_are_checked() {
    let mut board = board();
    with_peer(&mut board, 1, PeerState::Active(true), None, 1);
    let action = finalize_download(&mut board, address(1), 0, Some(b"aaaa".to_vec()), 7, 99);
    assert!(matches!(action, LoopAction::Pass));
    assert!(board.pieces[0].is_fetched());
    let peer = board.peers.get(address(1)).unwrap().clone();
    assert_eq!(peer.performance, Some(99));
    assert_eq!(
        peer.benchmarks,
        vec![Benchmark {
            bytes: 4,
            duration_millis: 7
        }]
    );
    let action = finalize_download(&mut board, address(1), 1, Some(b"xxxx".to_vec()), 7, 99);
    assert!(matches!(action, LoopAction::Continue));
    assert!(board.pieces[1].is_unfetched());
    let action = finalize_download(&mut board, address(1), 9, Some(b"xxxx".to_vec()), 7, 99);
    assert!(matches!(action, LoopAction::Continue));
    board.set_piece_state(1, PieceState::InProgress);
    let action = finalize_download(&mut board, address(1), 1, None, 7, 99);
    assert!(matches!(action, LoopAction::SeverThenContinue));
    assert!(board.pieces[1].is_unfetched());
    assert_eq!(state_of(&board, 1), PeerState::Error);
}

#[test]
fn large_torrents_are_saved_to_disk() {
    let mut board = Corkboard::new(torrent(&[b"aaaa"], 52_428_801)).unwrap();
    add_peer(&mut board, address(1));
    let mut worker = Worker::new();
    worker.connected(&mut board, address(1));
    match worker.finish_download(&mut board, 0, Some(b"xxxx".to_vec()), 1, 1) {
        LoopAction::Continue => assert_eq!(worker.saving, None),
        _ => panic!("kept"),
    }
    worker.connected(&mut board, address(1));
    match worker.finish_download(&mut board, 0, Some(b"aaaa".to_vec()), 1, 1) {
        LoopAction::Save(name, data) => {
            assert_eq!(name, "piece-0.dat");
            assert_eq!(data, b"aaaa".to_vec());
        }
        _ => panic!("not saved"),
    }
    assert!(board.pieces[0].is_unfetched());
    assert_eq!(worker.saving, Some(0));
    worker.saved(&mut board, "tmp/piece-0.dat".to_string());
    assert_eq!(worker.saving, None);
    assert_eq!(worker.uses, 1);
    match board.coallate().unwrap().as_slice() {
        [PieceLocation::Disk(path)] => assert_eq!(path, "tmp/piece-0.dat"),
        _ => panic!("not on disk"),
    }
}

#[test]
fn a_worker_goes_through_a_download() {
    let mut board = Corkboard::new(torrent(&[b"aaaa"], 4)).unwrap();
    add_peer(&mut board, address(1));
    let mut worker = Worker::new();
    assert!(worker.can_search(&board));
    assert_eq!(
        worker.search(&mut board),
        PeerSearchResult::ConnectNew(address(1))
    );
    worker.connect_failed(&mut board, address(1));
    assert_eq!(state_of(&board, 1), PeerState::Active(false));
    assert_eq!(
        worker.search(&mut board),
        PeerSearchResult::ConnectNew(address(1))
    );
    worker.connected(&mut board, address(1));
    assert_eq!(state_of(&board, 1), PeerState::Active(true));
    assert_eq!(worker.choose_piece(&mut board, &vec![true]), Some(0));
    let action = worker.finish_download(&mut board, 0, Some(b"aaaa".to_vec()), 5, 50);
    assert!(matches!(action, LoopAction::Pass));
    assert_eq!(worker.uses, 1);
    assert_eq!(worker.active, Some(address(1)));
    assert_eq!(worker.search(&mut board), PeerSearchResult::Exit);
    assert_eq!(worker.active, None);
    assert_eq!(Worker::startup_delay(3), 3000);
}

#[test]
fn a_worker_drops_a_peer_without_pieces() {
    let mut board = board();
    add_peer(&mut board, address(1));
    let mut worker = Worker::new();
    worker.connected(&mut board, address(1));
    assert_eq!(worker.choose_piece(&mut board, &vec![false]), None);
    assert_eq!(worker.active, None);
    worker.connected(&mut board, address(1));
    let action = worker.finish_download(&mut board, 1, None, 0, 0);
    assert!(matches!(action, LoopAction::SeverThenContinue));
    assert_eq!(worker.active, None);
}

#[test]
fn unfetched_pieces_are_not_coallated() {
    let mut board = board();
    assert_eq!(
        board.coallate().unwrap_err().details(),
        "Unfetched piece data remains!"
    );
    assert!(!board.is_complete());
    for id in 0..3 {
        board.set_piece_state(id, PieceState::Fetched(PieceLocation::Memory(vec![id as u8])));
    }
    assert!(board.is_complete());
    assert_eq!(board.coallate().unwrap().len(), 3);
}

#[test]
fn found_peers_are_put_up() {
    let mut board = board();
    add_peer(&mut board, address(1));
    add_peer(&mut board, address(1));
    assert_eq!(board.peers.len(), 1);
    assert_eq!(state_of(&board, 1), PeerState::Fresh);
    with_peer(&mut board, 1, PeerState::Superceded, Some(5), 9);
    add_peer(&mut board, address(1));
    assert_eq!(state_of(&board, 1), PeerState::Fresh);
    assert_eq!(board.peers.get(address(1)).unwrap().connection_attempts, 0);
    assert_eq!(board.peers.get(address(1)).unwrap().performance, Some(5));
    for state in [PeerState::Error, PeerState::Active(true), PeerState::Connecting] {
        with_peer(&mut board, 2, state, None, 9);
        add_peer(&mut board, address(2));
        assert_eq!(state_of(&board, 2), state);
        assert_eq!(board.peers.get(address(2)).unwrap().connection_attempts, 0);
    }
}

#[test]
fn statistics_are_counted() {
    let mut board = board();
    with_peer(&mut board, 1, PeerState::Fresh, None, 0);
    with_peer(&mut board, 2, PeerState::Fresh, None, 0);
    with_peer(&mut board, 3, PeerState::Active(true), None, 0);
    with_peer(&mut board, 4, PeerState::Active(false), None, 0);
    with_peer(&mut board, 5, PeerState::Error, None, 0);
    board.set_piece_state(1, PieceState::InProgress);
    board.set_piece_state(2, PieceState::Fetched(PieceLocation::Memory(vec![])));
    let statistics = Statistics::of(&board);
    assert_eq!(statistics.total_peers, 5);
    assert_eq!(statistics.fresh, 2);
    assert_eq!(statistics.connected, 1);
    assert_eq!(statistics.active, 1);
    assert_eq!(statistics.error, 1);
    assert_eq!(statistics.connecting, 0);
    assert_eq!(statistics.superceded, 0);
    assert_eq!(statistics.unfetched_ids, vec![0]);
    assert_eq!(statistics.in_progress_ids, vec![1]);
    assert_eq!(statistics.fetched, 1);
    assert!(statistics.lists_pieces());
    assert_eq!(
        statistics.summary(),
        "Connected to 1/5 peers, downloaded 1/3 pieces"
    );
    assert_eq!(
        statistics.report(),
        vec![
            "",
            "----------------------------",
            "",
            "Peer Stats:",
            "Total Peers:   5",
            "Fresh:         2",
            "Active:        1",
            "Connecting:    0",
            "Connected:     1",
            "Superceded:    0",
            "Error:         1",
            "",
            "Piece Stats:",
            "Total Pieces:  3",
            "Unfetched:     1",
            "In Progress:   1",
            "Fetched:       1",
            "",
            "Unfetched ids: [0]",
            "In Progress ids: [1]",
            "",
            "----------------------------",
            "",
        ]
    );
}

#[test]
fn requests_are_served() {
    let mut board = board();
    board.set_piece_state(1, PieceState::Fetched(PieceLocation::Memory(b"bbbb".to_vec())));
    assert_eq!(served_bitfield(&board), vec![false, true, false]);
    let mut session = SeederSession::new();
    let request = RequestMessage {
        index: 1,
        begin: 1,
        length: 2,
    };
    let asked = PeerMessage::Request(request);
    assert!(matches!(
        session.receive(&board, &asked, "1.2.3.4:5"),
        SeederStep::Ignore
    ));
    assert!(matches!(
        session.receive(&board, &PeerMessage::Interested, "1.2.3.4:5"),
        SeederStep::Unchoke
    ));
    match session.receive(&board, &asked, "1.2.3.4:5") {
        SeederStep::Serve(request, location) => {
            let data = location.load(Err(bterror("unused"))).unwrap();
            assert!(can_answer(request));
            match answer(request, &data).unwrap() {
                PeerMessage::Piece(piece) => {
                    assert_eq!((piece.index, piece.begin), (1, 1));
                    assert_eq!(piece.block, b"bb".to_vec());
                }
                _ => panic!("not a piece"),
            }
        }
        _ => panic!("not served"),
    }
    let unfetched = PeerMessage::Request(RequestMessage {
        index: 0,
        begin: 0,
        length: 1,
    });
    match session.receive(&board, &unfetched, "1.2.3.4:5") {
        SeederStep::Fail(error) => assert_eq!(error.details(), "Piece 0 is not fetched"),
        _ => panic!("served"),
    }
    let beyond = RequestMessage {
        index: 1,
        begin: 3,
        length: 2,
    };
    assert_eq!(
        answer(beyond, b"bbbb").unwrap_err().details(),
        "Invalid chunk data"
    );
    assert!(!can_answer(RequestMessage {
        index: 0,
        begin: u32::MAX,
        length: 1,
    }));
}

#[test]
fn peers_without_interest_are_dropped() {
    let mut session = SeederSession::new();
    match session.receive(&board(), &PeerMessage::NotInterested, "1.2.3.4:5") {
        SeederStep::Fail(error) => assert_eq!(error.details(), "1.2.3.4:5 was not interested"),
        _ => panic!("kept"),
    }
    let named = HandshakeMessage {
        info_hash: [0; 20],
        peer_id: b"abc".to_vec(),
    };
    assert_eq!(peer_id_text(&named).unwrap(), "abc");
    let unnamed = HandshakeMessage {
        info_hash: [0; 20],
        peer_id: vec![0xff],
    };
    assert_eq!(
        peer_id_text(&unnamed).unwrap_err().details(),
        "Peer id not bytes: invalid utf-8 sequence of 1 bytes from index 0"
    );
}

#[test]
fn the_first_metainfo_is_kept() {
    let mut retrieval = Retrieval::new();
    assert_eq!(retrieval.next_peer(), PeerStep::Connect);
    assert!(retrieval.located(torrent(&[b"a"], 1)));
    assert_eq!(retrieval.next_peer(), PeerStep::Readmit);
    assert!(!retrieval.located(torrent(&[b"a", b"b"], 2)));
    let mut other = Retrieval::new();
    assert_eq!(other.after_connect(None), ConnectStep::Next);
    assert_eq!(other.next_peer(), PeerStep::Connect);
    assert_eq!(
        other.after_connect(Some(torrent(&[b"a"], 1))),
        ConnectStep::ReadmitStored
    );
    assert_eq!(
        other.after_connect(Some(torrent(&[b"a", b"b"], 2))),
        ConnectStep::ReadmitKnown
    );
    assert_eq!(other.after_connect(None), ConnectStep::Next);
    assert_eq!(other.meta_info.unwrap().info.pieces.len(), 1);
    assert_eq!(retrieval.meta_info.unwrap().info.pieces.len(), 1);
}

#[test]
fn trackers_are_left_alone_for_a_while() {
    assert_eq!(tracker_wait(None), None);
    assert_eq!(tracker_wait(Some(5_000)), Some(5_000));
    assert_eq!(tracker_wait(Some(500_000)), Some(120_000));
}

#[test]
fn settings_have_defaults() {
    let config = Config::default().clone();
    assert_eq!(config.workers, 32);
    assert!(!config.verbose);
    assert_eq!(config.temp_path, "tmp/in-progress/");
    assert_eq!(config.peer_id, "00112233445566778899");
    assert_eq!(config.port, 6881);
}

#[test]
fn data_are_read_across_pieces() {
    let data = b"aaaabbbbcc".to_vec();
    let pieces = vec![b"aaaa".to_vec(), b"bbbb".to_vec(), b"cc".to_vec()];
    let locations: Vec<PieceLocation> =
        pieces.iter().map(|piece| PieceLocation::Memory(piece.clone())).collect();
    let mut proxy = DataProxy::new(locations, 4, 10);
    let mut read = vec![];
    assert_eq!(
        proxy.next_span(3),
        Some(Span {
            piece: 0,
            offset: 0,
            len: 3
        })
    );
    while let Some(span) = proxy.next_span(3) {
        let location = proxy.location(span.piece).unwrap();
        let piece = location.load(Err(bterror("unused"))).unwrap();
        assert!(proxy.can_take(span, &piece));
        read.extend(proxy.take(span, &piece));
    }
    assert_eq!(read, data);
    assert_eq!(proxy.cursor, 10);
    assert_eq!(
        proxy.location(3).unwrap_err().details(),
        "Piece index out of range: 3"
    );
    assert_eq!(
        DataProxy::not_found(2, "gone").details(),
        "Piece not found: 2: gone"
    );
    let disk = PieceLocation::Disk("f".to_string());
    assert_eq!(disk.load(Ok(vec![1])).unwrap(), vec![1]);
    assert_eq!(disk.load(Err(bterror("no"))).unwrap_err().details(), "no");
}

#[test]
fn files_are_assembled() {
    assert_eq!(
        assemble_file(vec![(2, b"cc".to_vec()), (0, b"aa".to_vec()), (1, b"bb".to_vec())]),
        b"aabbcc".to_vec()
    );
    assert_eq!(first_peer(&vec![address(1), address(2)]).unwrap(), address(1));
    assert_eq!(
        first_peer(&vec![]).unwrap_err().details(),
        "Tracker has no peers"
    );
    assert_eq!(piece_outcome(true, true), PieceOutcome::Deliver);
    assert_eq!(piece_outcome(true, false), PieceOutcome::Requeue);
    assert_eq!(piece_outcome(false, false), PieceOutcome::Requeue);
}

#[test]
fn tables_keep_one_peer_for_an_address() {
    let mut table = PeerTable::new();
    assert_eq!(table.len(), 0);
    table.set(address(1), Peer::new());
    table.set(address(1), Peer::new());
    table.set(address(2), Peer::new());
    assert_eq!(table.len(), 2);
    table.set_state(address(3), PeerState::Error);
    assert!(table.get(address(3)).is_none());
    assert_eq!(table.count(PeerState::Fresh), 2);
    assert!(is_among(&vec![address(1)], address(1)));
    assert!(!is_among(&vec![address(1)], address(2)));
    assert!(Peer::new().is_available());
    assert_eq!(Peer::new().rate(), UNMEASURED);
}

#[test]
fn a_board_in_memory_goes_through_a_download() {
    let source = torrent(&[b"aaaa", b"bb"], 6);
    let mut board = corkboard::Corkboard::new(&source, &vec![address(1), address(2), address(1)]);
    assert_eq!(board.remaining_pieces, 2);
    assert_eq!(board.peers.len(), 2);
    let step = board.plan(None, 0);
    let chosen = match step {
        corkboard::WorkerStep::Connect(chosen) => chosen,
        _ => panic!("no peer"),
    };
    assert_eq!(board.connected(chosen, Some(&vec![false, true])), Some(1));
    assert!(board.pieces[1].is_in_progress());
    assert!(board.downloaded(chosen, 1, Some(b"bb".to_vec()), 3, 30));
    assert_eq!(board.remaining_pieces, 1);
    assert_eq!(
        board.plan(Some((chosen, &vec![true, true])), 0),
        corkboard::WorkerStep::Download(0)
    );
    assert!(board.downloaded(chosen, 0, Some(b"xxxx".to_vec()), 3, 30));
    assert!(board.pieces[0].is_unfetched());
    assert_eq!(
        board.collect_data().unwrap_err().details(),
        "Unfetched piece data remains!"
    );
    assert_eq!(
        board.plan(Some((chosen, &vec![true, true])), 0),
        corkboard::WorkerStep::Download(0)
    );
    assert!(board.downloaded(chosen, 0, Some(b"aaaa".to_vec()), 3, 30));
    assert_eq!(board.remaining_pieces, 0);
    assert_eq!(board.try_downloaded(chosen, 0, Some(b"aaaa".to_vec()), 3, 30), None);
    assert_eq!(
        board.try_downloaded(chosen, 9, Some(b"aaaa".to_vec()), 3, 30),
        Some(true)
    );
    assert_eq!(board.plan(None, 0), corkboard::WorkerStep::Exit);
    assert!(board.is_in_memory());
    assert_eq!(board.collect_data().unwrap(), b"aaaabb".to_vec());
}

#[test]
fn a_board_in_memory_releases_peers() {
    let source = torrent(&[b"aaaa", b"bb"], 6);
    let mut board = corkboard::Corkboard::new(&source, &vec![address(1)]);
    assert_eq!(board.connected(address(1), None), None);
    assert_eq!(board.peers.get(address(1)).unwrap().state, PeerState::Error);
    assert_eq!(board.plan(None, 0), corkboard::WorkerStep::Wait);
    board.refresh_peers(&vec![address(1)]);
    assert_eq!(board.peers.get(address(1)).unwrap().state, PeerState::Inactive);
    board.peers.set_state(address(1), PeerState::Active(true));
    board.refresh_peers(&vec![address(1)]);
    assert_eq!(board.peers.get(address(1)).unwrap().state, PeerState::Fresh);
    assert_eq!(
        board.plan(Some((address(1), &vec![true])), 0),
        corkboard::WorkerStep::Connect(address(1))
    );
    assert_eq!(board.connected(address(1), Some(&vec![])), None);
    assert_eq!(board.peers.get(address(1)).unwrap().state, PeerState::Superceded);
    board.peers.set_state(address(1), PeerState::Active(true));
    assert_eq!(
        board.plan(Some((address(1), &vec![true])), corkboard::MAX_PEER_USES),
        corkboard::WorkerStep::Connect(address(1))
    );
    board.peers.set_state(address(1), PeerState::Active(true));
    assert!(!board.downloaded(address(1), 0, None, 0, 0));
    assert_eq!(board.peers.get(address(1)).unwrap().state, PeerState::Error);
}
