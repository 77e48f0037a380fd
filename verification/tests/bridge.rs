use craie::bridge::{Session, Sessions, MAX_BYTES, MAX_TRANSACTIONS};
use craie::runtime::{
    attach, frame, host_setup, wind_up, Frame, HostOptions, SurfaceState, RUNTIME_VERSION,
};
use craie::scalar::Scalar;
use craie::sync::{apply_all, turn, Turn};
use craie::ui::Ui;
use craie::wire::{Encoder, WireError};

#[test]
fn submit_queues_and_acks_round_trip() {
    let mut s = Session::new();
    s.submit(b"txn1".to_vec()).unwrap();
    s.submit(b"txn2".to_vec()).unwrap();
    let commits = s.take_commits();
    assert_eq!(commits.len(), 2);
    assert_eq!(commits[0], b"txn1");
    assert!(s.take_commits().is_empty());

    s.ack(41);
    s.ack(42);
    assert_eq!(s.recv_acks(), Some(vec![41, 42]));
}

/// A receiver that has to wait is let go by the end of the session.
#[test]
fn close_rejects_submit_and_unblocks_recv() {
    let mut s = Session::new();
    assert!(s.recv_acks().is_none());
    s.submit(b"x".to_vec()).unwrap();
    s.close("done".to_string());
    assert!(s.recv_acks().unwrap().is_empty());
    assert!(s.submit(b"y".to_vec()).is_err());
}

#[test]
fn the_first_reason_stays() {
    let mut s = Session::new();
    assert!(!s.is_closed());
    assert_eq!(s.closed_reason(), None);
    s.submit(b"x".to_vec()).unwrap();
    s.ack(3);
    s.close("first".to_string());
    s.close("second".to_string());
    assert!(s.is_closed());
    assert_eq!(s.closed_reason(), Some("first".to_string()));
    assert_eq!(s.submit(b"y".to_vec()), Err("first".to_string()));
    assert!(s.take_commits().is_empty());
    // What was applied before is still told.
    assert_eq!(s.recv_acks(), Some(vec![3]));
    assert_eq!(s.take_acks(), Vec::<u64>::new());
}

#[test]
fn the_queue_is_bounded_in_number() {
    let mut s = Session::new();
    for _ in 0..MAX_TRANSACTIONS {
        s.submit(Vec::new()).unwrap();
    }
    assert_eq!(
        s.submit(Vec::new()),
        Err("commit queue is full".to_string())
    );
    let _ = s.take_commits();
    s.submit(Vec::new()).unwrap();
}

#[test]
fn the_queue_is_bounded_in_bytes() {
    let mut s = Session::new();
    s.submit(vec![0; MAX_BYTES - 1]).unwrap();
    assert_eq!(
        s.submit(vec![0; 2]),
        Err("commit queue is full".to_string())
    );
    s.submit(vec![0; 1]).unwrap();
    assert_eq!(s.take_commits().len(), 2);
    s.submit(vec![0; MAX_BYTES]).unwrap();
}

#[test]
fn frames_come_out_in_order() {
    let mut s = Session::new();
    s.post_events(vec![1]);
    s.post_events(vec![2, 3]);
    let frames = s.take_frames();
    assert_eq!(frames.len(), 2);
    assert_eq!(frames[0], vec![1]);
    assert_eq!(frames[1], vec![2, 3]);
    assert!(s.take_frames().is_empty());
}

#[test]
fn ids_are_never_given_out_twice() {
    let mut all: Sessions<&str> = Sessions::new();
    let a = all.insert("a");
    let b = all.insert("b");
    assert_eq!((a, b), (1, 2));
    assert_eq!(all.get(a), Some(&"a"));
    all.remove(a);
    assert_eq!(all.get(a), None);
    assert_eq!(all.insert("c"), 3);
    assert_eq!(all.get(b), Some(&"b"));
}

fn txn(id: u32, seq: u64) -> Vec<u8> {
    let mut enc = Encoder::new();
    enc.create(id, 0);
    enc.finish(seq)
}

#[test]
fn applied_transactions_are_acknowledged() {
    let mut s = Session::new();
    let mut ui = Ui::new(Scalar(1f32.to_bits()));
    s.submit(txn(0, 10)).unwrap();
    s.submit(txn(1, 11)).unwrap();
    let bufs = s.take_commits();
    let outcomes = apply_all(&mut ui, &bufs);
    for o in outcomes {
        s.record(o);
    }
    assert_eq!(s.recv_acks(), Some(vec![10, 11]));
    assert!(!s.is_closed());
    assert_eq!(ui.host.len(), 2);
    assert_eq!(ui.seq, 11);
}

#[test]
fn an_undecodable_transaction_ends_the_session() {
    let mut s = Session::new();
    let mut ui = Ui::new(Scalar(1f32.to_bits()));
    s.submit(txn(0, 10)).unwrap();
    s.submit(vec![1, 2, 3]).unwrap();
    let bufs = s.take_commits();
    let outcomes = apply_all(&mut ui, &bufs);
    assert!(matches!(outcomes[1], Err(WireError::Truncated)));
    for o in outcomes {
        s.record(o);
    }
    assert_eq!(s.closed_reason(), Some("undecodable transaction".to_string()));
    assert_eq!(s.recv_acks(), Some(vec![10]));
    assert_eq!(ui.host.len(), 1);
}

#[test]
fn only_a_visible_change_paints() {
    let mut ui = Ui::new(Scalar(1f32.to_bits()));
    ui.host.clear_paint_dirty();
    assert_eq!(turn(&ui, 800, 600), Turn::Rest);
    ui.force_paint();
    assert_eq!(turn(&ui, 0, 600), Turn::Rest);
    assert_eq!(turn(&ui, 800, 0), Turn::Rest);
    assert_eq!(turn(&ui, 800, 600), Turn::Paint(800, 600));
}

fn options(width: Option<f32>, height: Option<f32>) -> HostOptions {
    HostOptions {
        title: None,
        width: width.map(|w| Scalar(w.to_bits())),
        height: height.map(|h| Scalar(h.to_bits())),
    }
}

#[test]
fn hosts_are_checked() {
    let ok = host_setup(true, false, options(None, Some(50.0))).unwrap();
    assert_eq!(ok.title, "Craie");
    assert_eq!(ok.width, Scalar(800f32.to_bits()));
    assert_eq!(ok.height, Scalar(50f32.to_bits()));
    let named = host_setup(
        true,
        false,
        HostOptions { title: Some("Mine".to_string()), width: None, height: None },
    )
    .unwrap();
    assert_eq!(named.title, "Mine");
    assert_eq!(named.height, Scalar(600f32.to_bits()));
    assert_eq!(
        host_setup(false, false, options(None, None)).unwrap_err(),
        "NativeHost requires the main thread"
    );
    assert_eq!(
        host_setup(true, true, options(None, None)).unwrap_err(),
        "A native host is already active"
    );
    for bad in [0.0, -1.0, f32::NAN, f32::INFINITY, f32::NEG_INFINITY] {
        assert_eq!(
            host_setup(true, false, options(Some(bad), None)).unwrap_err(),
            "Window dimensions must be finite and positive"
        );
        assert!(host_setup(true, false, options(None, Some(bad))).is_err());
    }
}

#[test]
fn clients_are_checked() {
    assert_eq!(
        attach(true, Some(false)),
        Err("NativeClient must run on the application worker".to_string())
    );
    assert_eq!(attach(false, None), Err("Unknown native session".to_string()));
    assert_eq!(
        attach(false, Some(true)),
        Err("Native session is closed".to_string())
    );
    assert_eq!(attach(false, Some(false)), Ok(()));
    assert_eq!(RUNTIME_VERSION, 1);
}

#[test]
fn a_loop_that_ran_out_tells_why() {
    let mut s = Session::new();
    assert_eq!(wind_up(&mut s), "Native window closed");
    assert_eq!(s.closed_reason(), Some("Native window closed".to_string()));
    let mut t = Session::new();
    t.close("asked".to_string());
    assert_eq!(wind_up(&mut t), "asked");
}

#[test]
fn frames_follow_the_surface() {
    assert_eq!(frame(1, 1, SurfaceState::Ready), Frame::Draw);
    assert_eq!(frame(1, 1, SurfaceState::Stale), Frame::Reconfigure);
    assert_eq!(frame(1, 1, SurfaceState::Unavailable), Frame::Skip);
    assert_eq!(frame(0, 1, SurfaceState::Ready), Frame::Skip);
    assert_eq!(frame(1, 0, SurfaceState::Stale), Frame::Skip);
}
