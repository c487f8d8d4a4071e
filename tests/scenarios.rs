use ota_core::controller::{Action, Descriptor, DescriptorError, FailReason, OtaController, OtaState};
use sha2::{Digest, Sha256};

/// A platform that carries out actions and records what was observable.
struct Platform {
    slot: Option<u32>,
    running: u32,
    erase_code: i32,
    begin_code: i32,
    publish_ok: bool,
    append_code: i32,
    end_code: i32,
    boot_code: i32,
    flash: Vec<u8>,
    appends: usize,
    log: Vec<String>,
    set_boot_calls: usize,
    reboots: usize,
}

impl Platform {
    fn new() -> Platform {
        Platform {
            slot: Some(1),
            running: 0,
            erase_code: 0,
            begin_code: 0,
            publish_ok: true,
            append_code: 0,
            end_code: 0,
            boot_code: 0,
            flash: Vec::new(),
            appends: 0,
            log: Vec::new(),
            set_boot_calls: 0,
            reboots: 0,
        }
    }

    fn run(&mut self, c: &mut OtaController, actions: Vec<Action>) {
        for a in actions {
            let next = match a {
                Action::Publish { topic, payload } => {
                    self.log.push(format!("publish {} {}", topic, payload));
                    Vec::new()
                }
                Action::RequestChunk { topic, payload } => {
                    self.log.push(format!("request {} {}", topic, payload));
                    c.on_request_sent(self.publish_ok)
                }
                Action::Telemetry(t) => {
                    match t.state {
                        OtaState::Failed(reason) => {
                            self.log.push(format!("telemetry FAILED {}", reason.message()))
                        }
                        s => self.log.push(format!("telemetry {}", s.name())),
                    }
                    Vec::new()
                }
                Action::SelectSlot => c.on_slot_selected(self.slot, self.running),
                Action::EraseSlot(s) => {
                    self.log.push(format!("erase {}", s));
                    self.flash.clear();
                    c.on_erased(self.erase_code)
                }
                Action::BeginWrite { slot, size } => {
                    self.log.push(format!("begin {} {}", slot, size));
                    c.on_write_begun(self.begin_code)
                }
                Action::Append(bytes) => {
                    self.appends += 1;
                    if self.append_code == 0 {
                        self.flash.extend_from_slice(&bytes);
                    }
                    c.on_appended(self.append_code)
                }
                Action::EndWrite => {
                    self.log.push("end".to_string());
                    c.on_write_ended(self.end_code)
                }
                Action::SetBoot(s) => {
                    self.set_boot_calls += 1;
                    self.log.push(format!("set_boot {}", s));
                    c.on_boot_set(self.boot_code)
                }
                Action::Reboot => {
                    self.reboots += 1;
                    self.log.push("reboot".to_string());
                    Vec::new()
                }
            };
            self.run(c, next);
        }
    }

    fn has(&self, prefix: &str) -> bool {
        self.log.iter().any(|l| l.starts_with(prefix))
    }

    fn count(&self, prefix: &str) -> usize {
        self.log.iter().filter(|l| l.starts_with(prefix)).count()
    }
}

fn hex(bytes: &[u8]) -> String {
    bytes.iter().map(|b| format!("{:02x}", b)).collect()
}

fn sha256_hex(data: &[u8]) -> String {
    hex(&Sha256::digest(data))
}

fn descriptor(title: &str, version: &str, size: u32, checksum: &str) -> Descriptor {
    Descriptor {
        title: Some(title.to_string()),
        version: Some(version.to_string()),
        size: Some(size),
        checksum: Some(checksum.to_string()),
        algorithm: Some("sha256".to_string()),
    }
}

fn image() -> Vec<u8> {
    vec![0x41u8; 8192]
}

fn controller() -> OtaController {
    OtaController::new("WS".to_string(), "V1".to_string())
}

fn start(c: &mut OtaController, p: &mut Platform, d: Descriptor, now: u64) {
    let actions = c.on_attributes(d, now).unwrap();
    p.run(c, actions);
}

fn chunk_topic(session: u32, index: u32) -> Vec<u8> {
    format!("v2/fw/response/{}/chunk/{}", session, index).into_bytes()
}

fn deliver(c: &mut OtaController, p: &mut Platform, session: u32, index: u32, body: &[u8], now: u64) {
    let actions = c.on_message(&chunk_topic(session, index), 0, body, body.len(), now);
    p.run(c, actions);
}

#[test]
fn happy_path_in_order() {
    let mut c = controller();
    let mut p = Platform::new();
    let request = c.request_firmware_info();
    p.run(&mut c, vec![request]);
    let img = image();
    start(&mut c, &mut p, descriptor("WS", "V2", 8192, &sha256_hex(&img)), 1000);
    assert_eq!(c.state(), OtaState::Downloading);
    assert_eq!(c.session_id(), 1);
    deliver(&mut c, &mut p, 1, 0, &img[..4096], 1100);
    assert!(c.received_bytes() <= 8192);
    deliver(&mut c, &mut p, 1, 1, &img[4096..], 1200);

    let expected_start = vec![
        "publish v1/devices/me/attributes/request/1 {\"sharedKeys\":\"fw_title,fw_version,fw_size,fw_checksum,fw_checksum_algorithm\"}".to_string(),
        "erase 1".to_string(),
        "begin 1 8192".to_string(),
        "request v2/fw/request/1/chunk/0 4096".to_string(),
        "request v2/fw/request/1/chunk/1 4096".to_string(),
        "request v2/fw/request/1/chunk/2 4096".to_string(),
    ];
    assert_eq!(p.log[..6].to_vec(), expected_start);
    let telemetry: Vec<&String> = p.log.iter().filter(|l| l.starts_with("telemetry")).collect();
    assert_eq!(
        telemetry,
        vec!["telemetry DOWNLOADED", "telemetry VERIFYING", "telemetry UPDATING", "telemetry UPDATED"]
    );
    assert_eq!(p.set_boot_calls, 1);
    assert_eq!(p.reboots, 1);
    assert!(!p.has("telemetry FAILED"));
    assert_eq!(p.flash, img);
    assert_eq!(c.state(), OtaState::Updated);
    assert_eq!(c.current_title().as_str(), "WS");
    assert_eq!(c.current_version().as_str(), "V2");
    assert_eq!(c.received_bytes(), 8192);
    assert_eq!(c.next_chunk_index(), 2);
}

#[test]
fn reorder_chunks_arrive_one_then_zero() {
    let mut c = controller();
    let mut p = Platform::new();
    let img = image();
    start(&mut c, &mut p, descriptor("WS", "V2", 8192, &sha256_hex(&img)), 0);
    deliver(&mut c, &mut p, 1, 1, &img[4096..], 10);
    assert_eq!(c.buffered_count(), 1);
    assert_eq!(c.next_chunk_index(), 0);
    assert_eq!(p.appends, 0);
    deliver(&mut c, &mut p, 1, 0, &img[..4096], 20);
    assert_eq!(p.appends, 2);
    assert_eq!(p.flash, img);
    assert_eq!(c.state(), OtaState::Updated);
    assert!(!p.has("telemetry FAILED"));
}

#[test]
fn bad_checksum_fails_without_set_boot() {
    let mut c = controller();
    let mut p = Platform::new();
    let img = image();
    let mut sum = sha256_hex(&img);
    let last = if sum.ends_with('0') { "1" } else { "0" };
    sum.replace_range(63..64, last);
    start(&mut c, &mut p, descriptor("WS", "V2", 8192, &sum), 0);
    deliver(&mut c, &mut p, 1, 0, &img[..4096], 10);
    deliver(&mut c, &mut p, 1, 1, &img[4096..], 20);
    assert_eq!(c.state(), OtaState::Failed(FailReason::ChecksumMismatch));
    assert_eq!(p.log.last().unwrap(), "telemetry FAILED Checksum verification failed");
    assert_eq!(p.set_boot_calls, 0);
    assert_eq!(p.reboots, 0);
}

#[test]
fn no_inactive_slot_fails_without_requests() {
    let mut c = controller();
    let mut p = Platform::new();
    p.slot = None;
    start(&mut c, &mut p, descriptor("WS", "V2", 8192, "00"), 0);
    assert_eq!(c.state(), OtaState::Failed(FailReason::NoPartition));
    assert_eq!(p.log, vec!["telemetry FAILED No valid OTA partition found".to_string()]);
    assert_eq!(p.count("request"), 0);
}

#[test]
fn offered_slot_equal_to_running_fails() {
    let mut c = controller();
    let mut p = Platform::new();
    p.slot = Some(0);
    p.running = 0;
    start(&mut c, &mut p, descriptor("WS", "V2", 8192, "00"), 0);
    assert_eq!(c.state(), OtaState::Failed(FailReason::NoPartition));
    assert_eq!(c.target_slot(), None);
}

#[test]
fn mid_session_restart_ignores_old_session() {
    let mut c = controller();
    let mut p = Platform::new();
    for k in 2..9u32 {
        start(&mut c, &mut p, descriptor("WS", &format!("V{}", k), 5 * 4096, "00"), 0);
    }
    assert_eq!(c.session_id(), 7);
    let body = vec![7u8; 4096];
    for i in 0..3u32 {
        deliver(&mut c, &mut p, 7, i, &body, 100);
    }
    assert_eq!(c.next_chunk_index(), 3);
    start(&mut c, &mut p, descriptor("WS", "V9", 5 * 4096, "00"), 200);
    assert_eq!(c.session_id(), 8);
    assert_eq!(c.next_chunk_index(), 0);
    assert_eq!(c.received_bytes(), 0);
    assert_eq!(c.buffered_count(), 0);
    let appends = p.appends;
    deliver(&mut c, &mut p, 7, 0, &body, 300);
    deliver(&mut c, &mut p, 7, 3, &body, 300);
    assert_eq!(p.appends, appends);
    assert_eq!(c.next_chunk_index(), 0);
    assert_eq!(c.received_bytes(), 0);
    assert_eq!(c.last_chunk_ms(), 200);
}

#[test]
fn matching_title_and_version_start_nothing() {
    let mut c = controller();
    let mut p = Platform::new();
    let actions = c.on_attributes(descriptor("WS", "V1", 8192, "00"), 0).unwrap();
    assert!(actions.is_empty());
    p.run(&mut c, actions);
    assert_eq!(c.state(), OtaState::Idle);
    assert_eq!(c.session_id(), 0);
    assert_eq!(p.count("request"), 0);
}

#[test]
fn matching_after_trimming_starts_nothing() {
    let mut c = controller();
    let actions = c.on_attributes(descriptor(" WS ", "V1\n", 8192, "00"), 0).unwrap();
    assert!(actions.is_empty());
    assert_eq!(c.state(), OtaState::Idle);
}

#[test]
fn incomplete_descriptor_is_rejected() {
    let mut c = controller();
    let d = Descriptor { title: Some("WS".to_string()), version: None, size: Some(10), checksum: None, algorithm: None };
    assert_eq!(c.on_attributes(d, 0).err(), Some(DescriptorError::Incomplete));
    assert_eq!(c.state(), OtaState::Idle);
    let d = Descriptor { title: None, version: Some("V2".to_string()), size: None, checksum: None, algorithm: None };
    let actions = c.on_attributes(d, 0).unwrap();
    assert_eq!(actions.len(), 1);
    assert_eq!(c.state(), OtaState::Downloading);
}

#[test]
fn received_bytes_never_pass_size() {
    let mut c = controller();
    let mut p = Platform::new();
    let img: Vec<u8> = (0..10000u32).map(|i| (i % 251) as u8).collect();
    start(&mut c, &mut p, descriptor("WS", "V2", 10000, &sha256_hex(&img)), 0);
    let mut offset = 0usize;
    let mut index = 0u32;
    while offset < img.len() {
        let end = (offset + 4096).min(img.len());
        deliver(&mut c, &mut p, 1, index, &img[offset..end], 0);
        assert!(c.received_bytes() <= 10000);
        if c.state() == OtaState::Downloading {
            assert!(c.received_bytes() < 10000);
        }
        offset = end;
        index += 1;
    }
    assert_eq!(c.state(), OtaState::Updated);
}

#[test]
fn chunk_beyond_size_fails() {
    let mut c = controller();
    let mut p = Platform::new();
    start(&mut c, &mut p, descriptor("WS", "V2", 100, "00"), 0);
    deliver(&mut c, &mut p, 1, 0, &[1u8; 101], 0);
    assert_eq!(c.state(), OtaState::Failed(FailReason::ChunkExceedsSize));
    assert_eq!(c.received_bytes(), 0);
    assert_eq!(p.appends, 0);
}

#[test]
fn next_chunk_counts_appends() {
    let mut c = controller();
    let mut p = Platform::new();
    start(&mut c, &mut p, descriptor("WS", "V2", 6 * 4096, "00"), 0);
    let body = vec![3u8; 4096];
    for i in 0..4u32 {
        deliver(&mut c, &mut p, 1, i, &body, 0);
        assert_eq!(c.next_chunk_index() as usize, p.appends);
    }
    assert_eq!(c.next_chunk_index(), 4);
}

#[test]
fn target_slot_differs_from_running() {
    let mut c = controller();
    let mut p = Platform::new();
    p.slot = Some(3);
    p.running = 2;
    start(&mut c, &mut p, descriptor("WS", "V2", 4096, "00"), 0);
    assert_eq!(c.target_slot(), Some(3));
    assert_ne!(c.target_slot(), Some(p.running));
}

#[test]
fn replayed_chunk_changes_nothing() {
    let mut c = controller();
    let mut p = Platform::new();
    start(&mut c, &mut p, descriptor("WS", "V2", 3 * 4096, "00"), 0);
    let body = vec![5u8; 4096];
    deliver(&mut c, &mut p, 1, 0, &body, 50);
    let (received, next, appends, stamp) = (c.received_bytes(), c.next_chunk_index(), p.appends, c.last_chunk_ms());
    let log_len = p.log.len();
    deliver(&mut c, &mut p, 1, 0, &body, 60);
    deliver(&mut c, &mut p, 1, 0, &[9u8; 10], 70);
    assert_eq!(c.received_bytes(), received);
    assert_eq!(c.next_chunk_index(), next);
    assert_eq!(p.appends, appends);
    assert_eq!(c.last_chunk_ms(), stamp);
    assert_eq!(p.log.len(), log_len);
}

#[test]
fn replayed_buffered_chunk_changes_nothing() {
    let mut c = controller();
    let mut p = Platform::new();
    let img: Vec<u8> = (0..8192u32).map(|i| (i % 7) as u8).collect();
    start(&mut c, &mut p, descriptor("WS", "V2", 8192, &sha256_hex(&img)), 0);
    deliver(&mut c, &mut p, 1, 1, &img[4096..], 10);
    deliver(&mut c, &mut p, 1, 1, &[0u8; 4096], 20);
    assert_eq!(c.buffered_count(), 1);
    assert_eq!(c.last_chunk_ms(), 10);
    deliver(&mut c, &mut p, 1, 0, &img[..4096], 30);
    assert_eq!(p.flash, img);
    assert_eq!(c.state(), OtaState::Updated);
}

#[test]
fn session_ids_increase() {
    let mut c = controller();
    let mut p = Platform::new();
    let mut last = c.session_id();
    for k in 2..6u32 {
        start(&mut c, &mut p, descriptor("WS", &format!("V{}", k), 4096, "00"), 0);
        assert!(c.session_id() > last);
        last = c.session_id();
    }
    assert_eq!(last, 4);
}

#[test]
fn permutations_give_same_flash_and_digest() {
    let img: Vec<u8> = (0..3 * 4096u32).map(|i| (i * 31 % 256) as u8).collect();
    let sum = sha256_hex(&img);
    let orders: [[u32; 3]; 6] = [[0, 1, 2], [0, 2, 1], [1, 0, 2], [1, 2, 0], [2, 0, 1], [2, 1, 0]];
    for order in orders.iter() {
        let mut c = controller();
        let mut p = Platform::new();
        start(&mut c, &mut p, descriptor("WS", "V2", 3 * 4096, &sum), 0);
        for &i in order.iter() {
            let s = i as usize * 4096;
            deliver(&mut c, &mut p, 1, i, &img[s..s + 4096], 0);
        }
        assert_eq!(p.flash, img);
        assert_eq!(c.state(), OtaState::Updated);
        assert_eq!(p.appends, 3);
    }
}

#[test]
fn chunk_far_ahead_is_dropped() {
    let mut c = controller();
    let mut p = Platform::new();
    start(&mut c, &mut p, descriptor("WS", "V2", 20 * 4096, "00"), 0);
    deliver(&mut c, &mut p, 1, 13, &[1u8; 4096], 0);
    assert_eq!(c.buffered_count(), 0);
    deliver(&mut c, &mut p, 1, 12, &[1u8; 4096], 0);
    assert_eq!(c.buffered_count(), 1);
}

#[test]
fn fragments_reassemble_into_chunk() {
    let mut c = controller();
    let mut p = Platform::new();
    let img: Vec<u8> = (0..4096u32).map(|i| (i % 256) as u8).collect();
    start(&mut c, &mut p, descriptor("WS", "V2", 4096, &sha256_hex(&img)), 0);
    let topic = chunk_topic(1, 0);
    let cuts = [0usize, 1000, 1001, 3000, 4096];
    for w in cuts.windows(2) {
        let actions = c.on_message(&topic, w[0], &img[w[0]..w[1]], 4096, 0);
        p.run(&mut c, actions);
    }
    assert_eq!(p.flash, img);
    assert_eq!(c.state(), OtaState::Updated);
}

#[test]
fn size_not_multiple_of_chunk() {
    let mut c = controller();
    let mut p = Platform::new();
    let img: Vec<u8> = (0..5000u32).map(|i| (i % 13) as u8).collect();
    start(&mut c, &mut p, descriptor("WS", "V2", 5000, &sha256_hex(&img)), 0);
    deliver(&mut c, &mut p, 1, 0, &img[..4096], 0);
    assert_eq!(c.state(), OtaState::Downloading);
    assert_eq!(c.received_bytes(), 4096);
    assert!(p.log.last().unwrap().starts_with("request v2/fw/request/1/chunk/1"));
    deliver(&mut c, &mut p, 1, 1, &img[4096..], 0);
    assert_eq!(c.received_bytes(), 5000);
    assert_eq!(c.state(), OtaState::Updated);
    assert_eq!(p.flash, img);
}

#[test]
fn empty_image_goes_straight_to_verifying() {
    let mut c = controller();
    let mut p = Platform::new();
    let empty = "e3b0c44298fc1c149afbf4c8996fb92427ae41e4649b934ca495991b7852b855";
    assert_eq!(sha256_hex(&[]), empty);
    start(&mut c, &mut p, descriptor("WS", "V2", 0, empty), 0);
    assert_eq!(p.count("request"), 0);
    let telemetry: Vec<&String> = p.log.iter().filter(|l| l.starts_with("telemetry")).collect();
    assert_eq!(telemetry[..2].to_vec(), vec!["telemetry DOWNLOADED", "telemetry VERIFYING"]);
    assert_eq!(c.state(), OtaState::Updated);
}

#[test]
fn chunk_timeout_boundary() {
    let mut c = controller();
    let mut p = Platform::new();
    start(&mut c, &mut p, descriptor("WS", "V2", 8192, "00"), 1000);
    let before = p.count("request");
    let actions = c.on_tick(1000 + 9999);
    p.run(&mut c, actions);
    assert_eq!(p.count("request"), before);
    let actions = c.on_tick(1000 + 10001);
    p.run(&mut c, actions);
    assert_eq!(p.count("request"), before + 1);
    assert_eq!(p.log.last().unwrap(), "request v2/fw/request/1/chunk/0 4096");
    assert_eq!(c.last_chunk_ms(), 11001);
}

#[test]
fn downloading_telemetry_is_throttled() {
    let mut c = controller();
    let mut p = Platform::new();
    start(&mut c, &mut p, descriptor("WS", "V2", 8192, "00"), 0);
    let mut silent = 0;
    loop {
        let actions = c.on_tick(0);
        if !actions.is_empty() {
            break;
        }
        silent += 1;
    }
    assert_eq!(silent, 48);
    for _ in 0..49 {
        assert!(c.on_tick(0).is_empty());
    }
    let actions = c.on_tick(0);
    assert_eq!(actions.len(), 1);
    match &actions[0] {
        Action::Telemetry(t) => {
            assert_eq!(t.state, OtaState::Downloading);
            assert_eq!(t.received, 0);
            assert_eq!(t.size, Some(8192));
            assert_eq!(t.current_title, "WS");
        }
        _ => panic!("expected a report"),
    }
}

#[test]
fn failed_state_is_reported_once() {
    let mut c = controller();
    let mut p = Platform::new();
    p.slot = None;
    start(&mut c, &mut p, descriptor("WS", "V2", 8192, "00"), 0);
    assert_eq!(p.count("telemetry FAILED"), 1);
    assert!(c.on_tick(5000).is_empty());
    assert!(c.on_tick(20000).is_empty());
    let idle = &mut controller();
    assert!(idle.on_tick(100000).is_empty());
}

#[test]
fn checksum_with_surrounding_space_is_accepted() {
    let mut c = controller();
    let mut p = Platform::new();
    let body = [6u8; 4096];
    let padded = format!(" {}\n", sha256_hex(&body));
    start(&mut c, &mut p, descriptor("WS", "V2", 4096, &padded), 0);
    deliver(&mut c, &mut p, 1, 0, &body, 0);
    assert_eq!(c.state(), OtaState::Updated);
}

#[test]
fn update_during_outstanding_append_restarts() {
    let mut c = controller();
    let mut p = Platform::new();
    start(&mut c, &mut p, descriptor("WS", "V2", 8192, "00"), 0);
    let pending = c.on_message(&chunk_topic(1, 0), 0, &[1u8; 4096], 4096, 5);
    assert_eq!(pending.len(), 1);
    let actions = c.on_attributes(descriptor("WS", "V3", 8192, "00"), 9).unwrap();
    assert_eq!(c.session_id(), 2);
    assert_eq!(c.next_chunk_index(), 0);
    assert_eq!(c.last_chunk_ms(), 9);
    assert!(c.on_appended(0).is_empty());
    assert_eq!(c.received_bytes(), 0);
    p.run(&mut c, actions);
    assert!(p.has("request v2/fw/request/2/chunk/0"));
}

#[test]
fn erase_failure_fails_session() {
    let mut c = controller();
    let mut p = Platform::new();
    p.erase_code = 0x101;
    start(&mut c, &mut p, descriptor("WS", "V2", 8192, "00"), 0);
    assert_eq!(c.state(), OtaState::Failed(FailReason::EraseFailed(0x101)));
    assert_eq!(p.log.last().unwrap(), "telemetry FAILED Failed to erase OTA partition: 257");
}

#[test]
fn begin_failure_fails_session() {
    let mut c = controller();
    let mut p = Platform::new();
    p.begin_code = -1;
    start(&mut c, &mut p, descriptor("WS", "V2", 8192, "00"), 0);
    assert_eq!(c.state(), OtaState::Failed(FailReason::BeginFailed(-1)));
    assert_eq!(p.log.last().unwrap(), "telemetry FAILED Failed to begin OTA: -1");
}

#[test]
fn request_failure_fails_session() {
    let mut c = controller();
    let mut p = Platform::new();
    p.publish_ok = false;
    start(&mut c, &mut p, descriptor("WS", "V2", 8192, "00"), 0);
    assert_eq!(c.state(), OtaState::Failed(FailReason::RequestFailed));
    assert_eq!(p.count("request"), 1);
}

#[test]
fn empty_chunk_before_end_fails() {
    let mut c = controller();
    let mut p = Platform::new();
    start(&mut c, &mut p, descriptor("WS", "V2", 8192, "00"), 0);
    deliver(&mut c, &mut p, 1, 0, &[], 0);
    assert_eq!(c.state(), OtaState::Failed(FailReason::EmptyChunkPremature));
    assert_eq!(p.log.last().unwrap(), "telemetry FAILED Empty chunk received prematurely");
}

#[test]
fn write_failure_fails_session() {
    let mut c = controller();
    let mut p = Platform::new();
    p.append_code = 5;
    start(&mut c, &mut p, descriptor("WS", "V2", 8192, "00"), 0);
    deliver(&mut c, &mut p, 1, 0, &[1u8; 4096], 0);
    assert_eq!(c.state(), OtaState::Failed(FailReason::WriteFailed(5)));
    assert_eq!(c.received_bytes(), 0);
    assert_eq!(c.next_chunk_index(), 0);
}

#[test]
fn end_failure_fails_session() {
    let mut c = controller();
    let mut p = Platform::new();
    p.end_code = 7;
    start(&mut c, &mut p, descriptor("WS", "V2", 4096, "00"), 0);
    deliver(&mut c, &mut p, 1, 0, &[1u8; 4096], 0);
    assert_eq!(c.state(), OtaState::Failed(FailReason::EndFailed(7)));
    assert!(!p.has("telemetry VERIFYING"));
}

#[test]
fn missing_checksum_fails_session() {
    let mut c = controller();
    let mut p = Platform::new();
    let d = Descriptor { title: Some("WS".to_string()), version: Some("V2".to_string()), size: Some(4096), checksum: None, algorithm: None };
    start(&mut c, &mut p, d, 0);
    deliver(&mut c, &mut p, 1, 0, &[1u8; 4096], 0);
    assert_eq!(c.state(), OtaState::Failed(FailReason::NoChecksum));
    assert_eq!(p.log.last().unwrap(), "telemetry FAILED No checksum provided");
}

#[test]
fn set_boot_failure_fails_session() {
    let mut c = controller();
    let mut p = Platform::new();
    p.boot_code = 9;
    let body = [2u8; 4096];
    start(&mut c, &mut p, descriptor("WS", "V2", 4096, &sha256_hex(&body)), 0);
    deliver(&mut c, &mut p, 1, 0, &body, 0);
    assert_eq!(c.state(), OtaState::Failed(FailReason::SetBootFailed(9)));
    assert_eq!(p.reboots, 0);
    assert_eq!(c.current_version().as_str(), "V1");
}

#[test]
fn uppercase_checksum_is_accepted() {
    let mut c = controller();
    let mut p = Platform::new();
    let body = [4u8; 4096];
    start(&mut c, &mut p, descriptor("WS", "V2", 4096, &sha256_hex(&body).to_uppercase()), 0);
    deliver(&mut c, &mut p, 1, 0, &body, 0);
    assert_eq!(c.state(), OtaState::Updated);
}

#[test]
fn attribute_response_message_starts_session() {
    let mut c = controller();
    let mut p = Platform::new();
    let body = br#"{"shared":{"fw_title":"WS","fw_version":" V2 ","fw_size":4096,"fw_checksum":"00","fw_checksum_algorithm":"sha256"}}"#;
    let actions = c.on_message(b"v1/devices/me/attributes/response/1", 0, body, body.len(), 0);
    p.run(&mut c, actions);
    assert_eq!(c.state(), OtaState::Downloading);
    assert_eq!(c.session_id(), 1);
    assert!(p.has("begin 1 4096"));
}

#[test]
fn attribute_request_ids_count_up() {
    let mut c = controller();
    let a = c.request_firmware_info();
    let b = c.request_firmware_info();
    match (a, b) {
        (Action::Publish { topic: t1, .. }, Action::Publish { topic: t2, payload }) => {
            assert_eq!(t1, "v1/devices/me/attributes/request/1");
            assert_eq!(t2, "v1/devices/me/attributes/request/2");
            assert_eq!(payload, "{\"sharedKeys\":\"fw_title,fw_version,fw_size,fw_checksum,fw_checksum_algorithm\"}");
        }
        _ => panic!("expected publishes"),
    }
    assert_eq!(c.attr_request_id(), 2);
}

#[test]
fn unrelated_topic_changes_nothing() {
    let mut c = controller();
    let mut p = Platform::new();
    start(&mut c, &mut p, descriptor("WS", "V2", 8192, "00"), 0);
    let actions = c.on_message(b"v1/devices/me/rpc/request/1", 0, &[1u8; 10], 10, 0);
    assert!(actions.is_empty());
    let actions = c.on_message(b"v2/fw/response/1/chunk/x", 0, &[1u8; 10], 10, 0);
    assert!(actions.is_empty());
    assert_eq!(c.received_bytes(), 0);
    assert_eq!(p.appends, 0);
}

#[test]
fn report_names_and_messages() {
    assert_eq!(OtaState::Idle.name(), "IDLE");
    assert_eq!(OtaState::Failed(FailReason::NoChecksum).name(), "FAILED");
    assert_eq!(FailReason::WriteFailed(-3).message(), "Failed to write OTA data: -3");
    assert_eq!(FailReason::SetBootFailed(i32::MIN).message(), "Failed to set boot partition: -2147483648");
    let c = controller();
    let t = c.telemetry();
    assert_eq!(t.state, OtaState::Idle);
    assert_eq!(t.current_version, "V1");
}

#[test]
fn unreadable_attribute_response_changes_nothing() {
    let mut c = controller();
    let actions = c.on_message(b"v1/devices/me/attributes/response/1", 0, b"not json", 8, 0);
    assert!(actions.is_empty());
    let body = br#"{"client":{"fw_version":"V2"}}"#;
    let actions = c.on_message(b"v1/devices/me/attributes/response/2", 0, body, body.len(), 0);
    assert!(actions.is_empty());
    assert_eq!(c.state(), OtaState::Idle);
    assert_eq!(c.session_id(), 0);
    let d = Descriptor { title: None, version: None, size: None, checksum: None, algorithm: None };
    assert_eq!(c.on_attributes(d, 0).err(), Some(DescriptorError::Incomplete));
}
