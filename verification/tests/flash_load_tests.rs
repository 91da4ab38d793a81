use gdb_flash::agdi::{
    dll_uv3_cap, enum_uv_arm7, init_request, progress_job, status_code, InitRequest,
    AG_CB_GETFLASHPARAM, AG_CB_PROGRESS, AG_ERR_GENERIC, AG_GETFEATURE, AG_INITCALLBACK,
    AG_INITFEATURES, AG_INITFLASHLOAD, AG_INITITEM, AG_NOACCESS, AG_OK, AG_STARTFLASHLOAD,
    PROGRESS_INIT, PROGRESS_KILL, PROGRESS_SETPOS,
};
use gdb_flash::client::GdbClient;
use gdb_flash::error::GdbError;
use gdb_flash::flash_load::{
    align_up, erase_span, first_block_size, progress_position, FlashSegment, HostEvent,
    HostRequest, LoadState, ProgressPhase, ProgressReport, WriteStage, DEFAULT_BLOCK_SIZE,
    WRITE_CHUNK,
};
use gdb_flash::memory_map::FlashRegion;
use gdb_flash::transport::MockTransport;

const MAP: &[u8] = br#"<memory-map>
  <memory type="ram" start="0x20000000" length="0x5000"/>
  <memory type="flash" start="0x08000000" length="0x8000">
    <property name="blocksize">0x400</property>
  </memory>
</memory-map>"#;

fn ok() -> Vec<Vec<u8>> {
    vec![vec![b'+'], MockTransport::rsp_packet(b"OK")]
}

fn map_reply(map: &[u8]) -> Vec<Vec<u8>> {
    let mut payload = vec![b'l'];
    payload.extend_from_slice(map);
    vec![vec![b'+'], MockTransport::rsp_packet(&payload)]
}

fn segment(start: u32, len: usize, total: u32) -> FlashSegment {
    FlashSegment {
        start_address: start,
        data: (0..len).map(|i| (i % 200) as u8 + 1).collect(),
        total_expected_size: total,
        has_more: len != 0,
    }
}

/// Runs a download the way a host does and returns the reports it saw.
fn run(
    client: &mut GdbClient<MockTransport>,
    mut segments: Vec<FlashSegment>,
) -> (Vec<ProgressReport>, Result<(), GdbError>) {
    segments.reverse();
    let mut reports = Vec::new();
    let mut state = LoadState::new("Loading...".to_string());
    loop {
        match state.request() {
            HostRequest::Report(report) => {
                reports.push(report);
                state = state.advance(client, HostEvent::Reported);
            }
            HostRequest::FetchSegment => {
                let next = segments.pop().unwrap_or_else(|| segment(0, 0, 0));
                state = state.advance(client, HostEvent::Segment(next));
            }
            HostRequest::Finished { success } => {
                let outcome = state.outcome().unwrap();
                assert_eq!(success, outcome.is_ok());
                return (reports, outcome);
            }
            HostRequest::Busy => panic!("the download waits for the target"),
        }
    }
}

fn bodies(client: &GdbClient<MockTransport>) -> Vec<Vec<u8>> {
    client
        .transport()
        .sent_packets
        .iter()
        .filter(|p| p.as_slice() != b"+")
        .map(|p| p[1..p.len() - 3].to_vec())
        .collect()
}

#[test]
fn download_of_two_segments() {
    let mut script = map_reply(MAP);
    for _ in 0..5 {
        script.extend(ok());
    }
    let mut client = GdbClient::new(MockTransport::new(script, true));
    let first = segment(0x0800_0000, 300, 500);
    let second = segment(0x0800_012c, 200, 500);
    let first_data = first.data.clone();
    let second_data = second.data.clone();
    let (reports, outcome) = run(&mut client, vec![first, second]);
    assert!(outcome.is_ok());

    let sent = bodies(&client);
    assert_eq!(sent.len(), 6);
    assert_eq!(sent[0], b"qXfer:memory-map:read::0,fff");
    assert_eq!(sent[1], b"vFlashErase:8000000,400");
    let mut chunk = b"vFlashWrite:8000000:".to_vec();
    chunk.extend(gdb_flash::codec::escape_binary(&first_data[..256]));
    assert_eq!(sent[2], chunk);
    let mut chunk = b"vFlashWrite:8000100:".to_vec();
    chunk.extend(gdb_flash::codec::escape_binary(&first_data[256..]));
    assert_eq!(sent[3], chunk);
    let mut chunk = b"vFlashWrite:800012c:".to_vec();
    chunk.extend(gdb_flash::codec::escape_binary(&second_data));
    assert_eq!(sent[4], chunk);
    assert_eq!(sent[5], b"vFlashDone");

    assert_eq!(reports.len(), 4);
    assert_eq!(reports[0].phase, ProgressPhase::Init);
    assert_eq!(reports[0].label.as_deref(), Some("Loading..."));
    assert_eq!((reports[0].position, reports[0].range_low, reports[0].range_high), (0, 0, 100));
    assert_eq!(reports[1].phase, ProgressPhase::SetPos);
    assert_eq!(reports[1].position, 60);
    assert!(reports[1].label.is_none() && reports[1].text.is_none());
    assert_eq!(reports[2].phase, ProgressPhase::SetPos);
    assert_eq!(reports[2].position, 100);
    assert_eq!(reports[3].phase, ProgressPhase::Kill);
    assert_eq!(reports[3].position, 0);
}

#[test]
fn download_without_data_only_ends_the_session() {
    let mut script = map_reply(MAP);
    script.extend(ok());
    let mut client = GdbClient::new(MockTransport::new(script, true));
    let (reports, outcome) = run(&mut client, vec![]);
    assert!(outcome.is_ok());
    assert_eq!(bodies(&client), vec![b"qXfer:memory-map:read::0,fff".to_vec(), b"vFlashDone".to_vec()]);
    assert_eq!(reports.len(), 2);
    assert_eq!(reports[0].phase, ProgressPhase::Init);
    assert_eq!(reports[1].phase, ProgressPhase::Kill);
}

#[test]
fn region_without_block_size_erases_by_the_default() {
    let map = br#"<memory-map><memory type="flash" start="0x0" length="0x8000"></memory></memory-map>"#;
    let mut script = map_reply(map);
    for _ in 0..3 {
        script.extend(ok());
    }
    let mut client = GdbClient::new(MockTransport::new(script, true));
    let (_, outcome) = run(&mut client, vec![segment(0, 4, 1025)]);
    assert!(outcome.is_ok());
    assert_eq!(bodies(&client)[1], b"vFlashErase:0,800");
}

#[test]
fn no_flash_region_fails_before_any_fetch() {
    let map = br#"<memory-map><memory type="ram" start="0x0" length="0x8000"></memory></memory-map>"#;
    let mut client = GdbClient::new(MockTransport::new(map_reply(map), true));
    let state = LoadState::new("x".to_string());
    let state = state.advance(&mut client, HostEvent::Reported);
    assert!(matches!(state.request(), HostRequest::Finished { success: false }));
    assert!(matches!(state.outcome(), Some(Err(GdbError::NoFlashRegion))));
    assert_eq!(bodies(&client).len(), 1);
}

#[test]
fn failed_query_fails_the_download() {
    let mut client = GdbClient::new(MockTransport::new(vec![vec![b'-']], true));
    let (reports, outcome) = run(&mut client, vec![segment(0, 4, 4)]);
    assert!(matches!(outcome, Err(GdbError::NegativeAck)));
    assert_eq!(reports.len(), 1);
    assert_eq!(reports[0].phase, ProgressPhase::Init);
}

#[test]
fn rejected_memory_map_fails_the_download() {
    let script = vec![vec![b'+'], MockTransport::rsp_packet(b"E01")];
    let mut client = GdbClient::new(MockTransport::new(script, true));
    let (_, outcome) = run(&mut client, vec![segment(0, 4, 4)]);
    assert!(matches!(outcome, Err(GdbError::RemoteRejected { .. })));
}

#[test]
fn failed_erase_writes_nothing_and_sends_no_kill() {
    let mut script = map_reply(MAP);
    script.push(vec![b'+']);
    script.push(MockTransport::rsp_packet(b"E05"));
    script.extend(ok());
    let mut client = GdbClient::new(MockTransport::new(script, true));
    let (reports, outcome) = run(&mut client, vec![segment(0x0800_0000, 8, 8)]);
    match outcome {
        Err(GdbError::RemoteRejected { command, response }) => {
            assert_eq!(command, b"vFlashErase:8000000,400");
            assert_eq!(response, b"E05");
        }
        other => panic!("{:?}", other),
    }
    assert_eq!(bodies(&client).len(), 2);
    assert!(reports.iter().all(|r| r.phase != ProgressPhase::Kill));
}

#[test]
fn failed_write_ends_without_done_and_without_kill() {
    let mut script = map_reply(MAP);
    script.extend(ok());
    script.push(vec![b'+']);
    script.push(MockTransport::rsp_packet(b"E07"));
    script.extend(ok());
    let mut client = GdbClient::new(MockTransport::new(script, true));
    let (reports, outcome) = run(&mut client, vec![segment(0x0800_0000, 8, 8)]);
    assert!(matches!(outcome, Err(GdbError::RemoteRejected { .. })));
    let sent = bodies(&client);
    assert_eq!(sent.len(), 3);
    assert!(sent.iter().all(|b| b.as_slice() != b"vFlashDone"));
    assert_eq!(reports.len(), 1);
}

#[test]
fn failed_done_sends_no_kill() {
    let mut script = map_reply(MAP);
    script.extend(ok());
    script.extend(ok());
    script.push(vec![b'+']);
    script.push(MockTransport::rsp_packet(b"E09"));
    let mut client = GdbClient::new(MockTransport::new(script, true));
    let (reports, outcome) = run(&mut client, vec![segment(0x0800_0000, 8, 8)]);
    assert!(matches!(outcome, Err(GdbError::RemoteRejected { .. })));
    assert_eq!(reports.len(), 2);
    assert_eq!(reports[1].phase, ProgressPhase::SetPos);
}

#[test]
fn block_size_zero_fails_the_download() {
    let map = br#"<memory-map><memory type="flash" start="0x0" length="0x8000"><property name="blocksize">0</property></memory></memory-map>"#;
    let mut client = GdbClient::new(MockTransport::new(map_reply(map), true));
    let (_, outcome) = run(&mut client, vec![segment(0, 4, 4)]);
    assert!(matches!(outcome, Err(GdbError::MalformedMemoryMap)));
    assert_eq!(bodies(&client).len(), 1);
}

#[test]
fn events_that_are_not_awaited_change_nothing() {
    let state = LoadState::new("x".to_string());
    let state = state.on_host(HostEvent::Segment(segment(0, 4, 4)));
    assert!(matches!(state, LoadState::Init { reported: false, .. }));
    let state = state.on_status(Ok(()));
    assert!(matches!(state, LoadState::Init { reported: false, .. }));
    let state = state.on_regions(Ok(vec![]));
    assert!(matches!(state, LoadState::Init { reported: false, .. }));
    let state = state.on_host(HostEvent::Reported);
    assert!(matches!(state.request(), HostRequest::Busy));
    let state = state.on_host(HostEvent::Reported);
    assert!(matches!(state, LoadState::Init { reported: true, .. }));
    assert!(!state.is_over());
    assert!(state.outcome().is_none());
}

#[test]
fn steps_through_the_states() {
    let state = LoadState::new("x".to_string()).on_host(HostEvent::Reported);
    let state = state.on_regions(Ok(vec![FlashRegion { start: 0, length: 16, blocksize: Some(8) }]));
    assert!(matches!(state, LoadState::RegionsDiscovered { block_size: 8, first: None }));
    assert!(matches!(state.request(), HostRequest::FetchSegment));
    let state = state.on_host(HostEvent::Segment(segment(0, 5, 10)));
    assert!(matches!(state, LoadState::RegionsDiscovered { first: Some(_), .. }));
    let state = state.on_status(Ok(()));
    assert!(matches!(state, LoadState::Erased { .. }));
    let state = state.on_status(Ok(()));
    assert!(matches!(
        state,
        LoadState::Writing { written: 5, total: 10, stage: WriteStage::Reporting }
    ));
    match state.request() {
        HostRequest::Report(r) => assert_eq!((r.phase, r.position), (ProgressPhase::SetPos, 50)),
        other => panic!("{:?}", other),
    }
    let state = state.on_host(HostEvent::Reported);
    assert!(matches!(state, LoadState::Writing { stage: WriteStage::Fetching, .. }));
    let state = state.on_host(HostEvent::Segment(segment(5, 5, 20)));
    assert!(matches!(state, LoadState::Writing { stage: WriteStage::Sending(_), .. }));
    let state = state.on_status(Ok(()));
    assert!(matches!(
        state,
        LoadState::Writing { written: 10, total: 20, stage: WriteStage::Reporting }
    ));
    let state = state.on_host(HostEvent::Reported).on_host(HostEvent::Segment(segment(0, 0, 0)));
    assert!(matches!(state, LoadState::Done { finalized: false }));
    let state = state.on_status(Ok(()));
    assert!(matches!(state, LoadState::Done { finalized: true }));
    let state = state.on_host(HostEvent::Reported);
    assert!(matches!(state, LoadState::Success));
    assert!(state.is_over());
    let state = state.on_host(HostEvent::Reported).on_status(Err(GdbError::NegativeAck));
    assert!(matches!(state, LoadState::Success));
}

#[test]
fn align_up_rounds_to_the_next_multiple() {
    assert_eq!(align_up(0, 1024), 0);
    assert_eq!(align_up(1, 1024), 1024);
    assert_eq!(align_up(1024, 1024), 1024);
    assert_eq!(align_up(1025, 1024), 2048);
    assert_eq!(align_up(500, 0x400), 0x400);
    assert_eq!(align_up(10, 3), 12);
    assert_eq!(align_up(0xffff_fc00, 0x400), 0xffff_fc00);
    for value in [0u32, 1, 255, 256, 257, 4095, 4096, 70000] {
        for align in [1u32, 2, 4, 256, 1024, 4096] {
            assert_eq!(align_up(value, align), (value + align - 1) & !(align - 1));
        }
    }
}

#[test]
fn erase_span_needs_a_block_size_and_room() {
    assert_eq!(erase_span(500, 1024), Some(1024));
    assert_eq!(erase_span(0, 1024), Some(0));
    assert_eq!(erase_span(7, 7), Some(7));
    assert_eq!(erase_span(8, 7), Some(14));
    assert_eq!(erase_span(1, 0), None);
    assert_eq!(erase_span(0xffff_ffff, 1024), None);
    assert_eq!(erase_span(0xffff_fc00, 1024), Some(0xffff_fc00));
    assert_eq!(erase_span(1, 0x1_0000_0000), None);
    assert_eq!(erase_span(0, 0x1_0000_0000), Some(0));
    assert_eq!(erase_span(1, u64::MAX), None);
}

#[test]
fn progress_is_a_percentage() {
    assert_eq!(progress_position(0, 10), 0);
    assert_eq!(progress_position(5, 10), 50);
    assert_eq!(progress_position(10, 10), 100);
    assert_eq!(progress_position(1, 3), 33);
    assert_eq!(progress_position(20, 10), 200);
    assert_eq!(progress_position(300, 500), 60);
    assert_eq!(progress_position(u64::MAX, 1), i32::MAX);
    assert_eq!(progress_position(5, 0), 0);
    assert_eq!(progress_position(0x8000_0000, 0xffff_ffff), 50);
}

#[test]
fn first_region_gives_the_block_size() {
    assert_eq!(first_block_size(&vec![]), None);
    let plain = FlashRegion { start: 0, length: 1, blocksize: None };
    let sized = FlashRegion { start: 0, length: 1, blocksize: Some(2048) };
    assert_eq!(first_block_size(&vec![plain, sized]), Some(DEFAULT_BLOCK_SIZE));
    assert_eq!(first_block_size(&vec![sized, plain]), Some(2048));
    assert_eq!(DEFAULT_BLOCK_SIZE, 1024);
    assert_eq!(WRITE_CHUNK, 256);
}

#[test]
fn interface_codes() {
    assert_eq!(AG_INITFEATURES, 0x0100);
    assert_eq!(AG_GETFEATURE, 0x0200);
    assert_eq!(AG_INITITEM, 0x0300);
    assert_eq!(AG_INITCALLBACK, 0x0012);
    assert_eq!(AG_INITFLASHLOAD, 0x0013);
    assert_eq!(AG_STARTFLASHLOAD, 0x0014);
    assert_eq!((AG_OK, AG_ERR_GENERIC, AG_NOACCESS), (0, 1, 1));
    assert_eq!((AG_CB_PROGRESS, AG_CB_GETFLASHPARAM), (2, 15));
    assert_eq!((PROGRESS_INIT, PROGRESS_KILL, PROGRESS_SETPOS), (1, 2, 3));
    assert_eq!(progress_job(ProgressPhase::Init), 1);
    assert_eq!(progress_job(ProgressPhase::Kill), 2);
    assert_eq!(progress_job(ProgressPhase::SetPos), 3);
    assert_eq!(status_code(true), AG_OK);
    assert_eq!(status_code(false), AG_NOACCESS);
}

#[test]
fn init_codes_are_told_apart() {
    assert_eq!(init_request(0x0312), InitRequest::InitCallback);
    assert_eq!(init_request(0x0313), InitRequest::InitFlashLoad);
    assert_eq!(init_request(0x0314), InitRequest::StartFlashLoad);
    assert_eq!(init_request(0x0315), InitRequest::Nothing);
    assert_eq!(init_request(0x0300), InitRequest::Nothing);
    assert_eq!(init_request(0x0200), InitRequest::GetFeature);
    assert_eq!(init_request(0x02ff), InitRequest::GetFeature);
    assert_eq!(init_request(0x0113), InitRequest::Nothing);
    assert_eq!(init_request(0x0013), InitRequest::Nothing);
    assert_eq!(init_request(0xffff), InitRequest::Nothing);
}

#[test]
fn capabilities() {
    assert_eq!(dll_uv3_cap(1), 1);
    assert_eq!(dll_uv3_cap(2), 7);
    assert_eq!(dll_uv3_cap(100), 1);
    assert_eq!(dll_uv3_cap(0), 0);
    assert_eq!(dll_uv3_cap(3), 0);
    assert_eq!(enum_uv_arm7(2), 7);
    assert_eq!(enum_uv_arm7(1), 0);
    assert_eq!(enum_uv_arm7(0), 0);
}
