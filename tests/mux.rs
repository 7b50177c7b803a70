use dashboard::cache::ResponseCache;
use dashboard::mux::{Multiplexer, RequestOutcome, ResponseOutcome};
use dashboard::proto::{
    BackendMessage, CpuResponse, FrontendMessage, Handshake, IdBackendMessage, IdFrontendMessage,
    MemResponse, NoIdBackendMessage, UsageData,
};

fn wait_ms(ms: u64) {
    let start = std::time::Instant::now();
    while start.elapsed() < std::time::Duration::from_millis(ms) {
        std::hint::spin_loop();
    }
}

fn mem(used: u64) -> IdBackendMessage {
    IdBackendMessage::Mem(MemResponse {
        ram: UsageData { used, total: 1000 },
        swap: UsageData { used: 0, total: 0 },
    })
}

fn sent_id<S>(o: RequestOutcome<S>) -> u16 {
    match o {
        RequestOutcome::Send(id, FrontendMessage::Id(fid, _)) => {
            assert_eq!(id, fid);
            id
        }
        _ => panic!("expected a frame to be sent"),
    }
}

#[test]
fn cpu_request_round_trip() {
    let mut mux: Multiplexer<&str> = Multiplexer::new();
    let out = mux.on_request(IdFrontendMessage::Cpu, "handler");
    match out {
        RequestOutcome::Send(0, FrontendMessage::Id(0, IdFrontendMessage::Cpu)) => {}
        _ => panic!("expected frame id 0 for Cpu"),
    }
    assert!(mux.is_pending(0));
    let answer = IdBackendMessage::Cpu(CpuResponse { global_cpu: 3750, cpus: vec![3000, 4500] });
    match mux.on_message(BackendMessage::Id(0, answer)) {
        ResponseOutcome::Deliver("handler", IdBackendMessage::Cpu(c)) => {
            assert_eq!(c.global_cpu, 3750);
            assert_eq!(c.cpus, vec![3000, 4500]);
        }
        _ => panic!("expected delivery"),
    }
    assert_eq!(mux.pending_len(), 0);
}

#[test]
fn cache_collapse_second_request_served_from_cache() {
    let mut mux: Multiplexer<u32> = Multiplexer::new();
    let id = sent_id(mux.on_request(IdFrontendMessage::Mem, 1));
    assert!(matches!(mux.on_message(BackendMessage::Id(id, mem(42))), ResponseOutcome::Deliver(1, _)));
    wait_ms(100);
    match mux.on_request(IdFrontendMessage::Mem, 2) {
        RequestOutcome::Cached(2, IdBackendMessage::Mem(m)) => assert_eq!(m.ram.used, 42),
        _ => panic!("expected a cache hit"),
    }
    assert_eq!(mux.pending_len(), 0);
}

#[test]
fn no_collapse_before_first_answer() {
    let mut mux: Multiplexer<u32> = Multiplexer::new();
    let a = sent_id(mux.on_request(IdFrontendMessage::Mem, 1));
    let b = sent_id(mux.on_request(IdFrontendMessage::Mem, 2));
    assert_ne!(a, b);
    assert_eq!(mux.pending_len(), 2);
    assert!(matches!(mux.on_message(BackendMessage::Id(b, mem(5))), ResponseOutcome::Deliver(2, _)));
    assert!(matches!(mux.on_message(BackendMessage::Id(a, mem(6))), ResponseOutcome::Deliver(1, _)));
    // other metrics are not answered from the Mem slot
    let _ = sent_id(mux.on_request(IdFrontendMessage::Disk, 3));
}

#[test]
fn cache_expires_after_time_to_live() {
    let mut mux: Multiplexer<u32> = Multiplexer::new();
    let id = sent_id(mux.on_request(IdFrontendMessage::Mem, 1));
    let _ = mux.on_message(BackendMessage::Id(id, mem(1)));
    assert!(matches!(mux.on_request(IdFrontendMessage::Mem, 2), RequestOutcome::Cached(..)));
    wait_ms(1700);
    let _ = sent_id(mux.on_request(IdFrontendMessage::Mem, 3));
}

#[test]
fn response_cache_freshness() {
    let mut cache = ResponseCache::new();
    assert!(cache.get(IdFrontendMessage::Temp).is_none());
    cache.insert(&mem(9));
    assert!(matches!(cache.get(IdFrontendMessage::Mem), Some(IdBackendMessage::Mem(m)) if m.ram.used == 9));
    assert!(cache.get(IdFrontendMessage::Cpu).is_none());
    wait_ms(1300);
    assert!(cache.get(IdFrontendMessage::Mem).is_some());
    wait_ms(400);
    assert!(cache.get(IdFrontendMessage::Mem).is_none());
}

#[test]
fn stray_id_is_dropped_and_connection_goes_on() {
    let mut mux: Multiplexer<u32> = Multiplexer::new();
    assert!(matches!(mux.on_message(BackendMessage::Id(777, mem(1))), ResponseOutcome::UnknownId(777)));
    let id = sent_id(mux.on_request(IdFrontendMessage::Mem, 1));
    assert!(matches!(mux.on_message(BackendMessage::Id(id, mem(2))), ResponseOutcome::Deliver(1, _)));
}

#[test]
fn stray_handshake_is_unexpected() {
    let mut mux: Multiplexer<u32> = Multiplexer::new();
    let hs = BackendMessage::NoId(NoIdBackendMessage::Handshake(Handshake { nickname: "x".into(), version: 1 }));
    assert!(matches!(mux.on_message(hs), ResponseOutcome::Unexpected));
}

#[test]
fn ids_stay_distinct_across_interleaving() {
    let mut mux: Multiplexer<u32> = Multiplexer::new();
    let mut outstanding: Vec<u16> = Vec::new();
    let mut seed: u32 = 12345;
    for step in 0..2000u32 {
        seed = seed.wrapping_mul(1103515245).wrapping_add(12345);
        if seed % 3 != 0 || outstanding.is_empty() {
            let id = sent_id(mux.on_request(IdFrontendMessage::Disk, step));
            assert!(!outstanding.contains(&id));
            outstanding.push(id);
        } else {
            let at = (seed as usize / 7) % outstanding.len();
            let id = outstanding.swap_remove(at);
            let reading = IdBackendMessage::NetIO(dashboard::proto::NetworkResponse { sent: 1, recv: 2 });
            assert!(matches!(mux.on_message(BackendMessage::Id(id, reading)), ResponseOutcome::Deliver(..)));
        }
        assert_eq!(mux.pending_len(), outstanding.len());
    }
}

#[test]
fn allocator_skips_ids_in_use_after_wrap() {
    let mut mux: Multiplexer<u32> = Multiplexer::new();
    for i in 0..65536u32 {
        assert_eq!(sent_id(mux.on_request(IdFrontendMessage::Cpu, i)), i as u16);
    }
    assert!(matches!(mux.on_request(IdFrontendMessage::Cpu, 0), RequestOutcome::Exhausted(0)));
    let r = IdBackendMessage::Mem(MemResponse { ram: UsageData { used: 1, total: 2 }, swap: UsageData { used: 0, total: 0 } });
    let _ = mux.on_message(BackendMessage::Id(5, r));
    assert_eq!(sent_id(mux.on_request(IdFrontendMessage::Cpu, 1)), 5);
}

#[test]
fn close_drops_waiting_callers() {
    let mut mux: Multiplexer<u32> = Multiplexer::new();
    let id = sent_id(mux.on_request(IdFrontendMessage::Temp, 1));
    let _ = sent_id(mux.on_request(IdFrontendMessage::Temp, 2));
    mux.close();
    assert_eq!(mux.pending_len(), 0);
    assert!(matches!(mux.on_message(BackendMessage::Id(id, mem(1))), ResponseOutcome::UnknownId(_)));
}

#[test]
fn abandoned_caller_leaves_no_entry() {
    // the caller's sink is gone, but its entry still leaves on the answer
    let mut mux: Multiplexer<Option<u32>> = Multiplexer::new();
    let id = sent_id(mux.on_request(IdFrontendMessage::Mem, None));
    assert!(matches!(mux.on_message(BackendMessage::Id(id, mem(3))), ResponseOutcome::Deliver(None, _)));
    assert!(!mux.is_pending(id));
}
