use indexify_core::ids::{id_text, parse_id};
use indexify_core::ingest::{
    blob_file_name, check_file_count, content_mime, new_blob_file_name, pick_mime, plan_upload,
    upload_id,
    UploadError,
};
use indexify_core::liveness::{ExecutorStatus, LivenessConfig};
use indexify_core::model::{Content, DataPayload};
use indexify_core::state::{Command, State};
use indexify_core::stream::{change_offset, content_stream, stream_start, NewContentStreamStart};

fn content(id: u64, graph: &str) -> Content {
    Content {
        id,
        namespace: "ns".to_string(),
        compute_graph_name: graph.to_string(),
        parent_id: None,
        root_id: None,
        payload: DataPayload { path: "p".to_string(), size: 1, sha256_hash: "h".to_string() },
        mime: None,
        source_fn: None,
        created_at: 0,
    }
}

fn state_with_content(n: u64) -> State {
    let mut s = State::new();
    assert!(s.apply(Command::CreateNamespace { name: "ns".to_string() }, 0).is_ok());
    for i in 0..n {
        let g = if i % 3 == 2 { "other" } else { "g" };
        assert!(s.apply(Command::IngestContent { content: content(10 + i, g) }, i).is_ok());
    }
    s
}

#[test]
fn resumed_stream_continues_without_gap() {
    let s = state_with_content(9);
    let (ns, g) = ("ns".to_string(), "g".to_string());
    let k = 1;
    let first: Vec<u64> = content_stream(&s, &ns, &g, k).iter().map(|i| i.offset).collect();
    assert_eq!(first, vec![1, 3, 4, 6, 7]);
    let upto: Vec<u64> = first.iter().copied().filter(|o| *o <= k + 3).collect();
    let resumed: Vec<u64> = content_stream(&s, &ns, &g, k + 3).iter().map(|i| i.offset).collect();
    assert_eq!(resumed, vec![4, 6, 7]);
    assert_eq!(*upto.last().unwrap(), k + 3);
    assert!(first.ends_with(&resumed));
}

#[test]
fn stream_items_carry_content_ids() {
    let s = state_with_content(4);
    let items = content_stream(&s, &"ns".to_string(), &"g".to_string(), 0);
    let ids: Vec<u64> = items.iter().map(|i| i.content_id).collect();
    assert_eq!(ids, vec![10, 11, 13]);
    let none = content_stream(&s, &"ns".to_string(), &"g".to_string(), change_offset(&NewContentStreamStart::FromLast));
    assert!(none.is_empty());
}

#[test]
fn stream_start_from_offset_parameter() {
    assert!(matches!(stream_start(Some(5)), NewContentStreamStart::FromOffset(5)));
    assert!(matches!(stream_start(None), NewContentStreamStart::FromLast));
    assert_eq!(change_offset(&NewContentStreamStart::FromLast), u64::MAX);
    assert_eq!(change_offset(&NewContentStreamStart::FromOffset(7)), 7);
}

#[test]
fn ids_are_sixteen_lowercase_hex_digits() {
    assert_eq!(id_text(0), "0000000000000000");
    assert_eq!(id_text(0xdead_beef), "00000000deadbeef");
    assert_eq!(id_text(u64::MAX), "ffffffffffffffff");
    assert_eq!(parse_id("00000000deadbeef"), Some(0xdead_beef));
    assert_eq!(parse_id("ffffffffffffffff"), Some(u64::MAX));
    assert_eq!(parse_id("00000000DEADBEEF"), None);
    assert_eq!(parse_id("deadbeef"), None);
    assert_eq!(parse_id("00000000deadbeeg"), None);
    for n in [1u64, 42, 1 << 40, 0x0123_4567_89ab_cdef] {
        assert_eq!(parse_id(&id_text(n)), Some(n));
    }
}

#[test]
fn upload_id_rules() {
    let s = state_with_content(2);
    assert!(matches!(upload_id(&s, Some("xyz"), 5), Err(UploadError::InvalidId)));
    assert!(matches!(upload_id(&s, Some("000000000000000a"), 5), Err(UploadError::ContentExists)));
    assert!(matches!(upload_id(&s, Some("00000000000000ff"), 5), Ok(255)));
    assert!(matches!(upload_id(&s, None, 5), Ok(5)));
    assert!(matches!(upload_id(&s, None, 11), Err(UploadError::ContentExists)));
}

#[test]
fn file_count_rules() {
    assert!(matches!(check_file_count(0), Err(UploadError::NoFile)));
    assert!(matches!(check_file_count(2), Err(UploadError::MultipleFiles)));
    assert!(check_file_count(1).is_ok());
}

#[test]
fn blob_names_keep_the_extension() {
    assert_eq!(blob_file_name("abc", "pdf"), "abc.pdf");
    assert_eq!(blob_file_name("abc", ""), "abc");
    let n = new_blob_file_name("txt");
    assert_eq!(n.len(), 20);
    assert!(n.ends_with(".txt"));
    assert!(n[..16].chars().all(|c| c.is_ascii_alphanumeric() || c == '_' || c == '-'));
    assert_eq!(new_blob_file_name("").len(), 16);
    assert_ne!(new_blob_file_name(""), new_blob_file_name(""));
}

#[test]
fn mime_comes_from_label_or_extension() {
    assert_eq!(content_mime(None, "pdf").ok(), Some("application/pdf".to_string()));
    assert_eq!(content_mime(None, "").ok(), Some("application/octet-stream".to_string()));
    assert_eq!(content_mime(Some("text/plain"), "pdf").ok(), Some("text/plain".to_string()));
    assert_eq!(content_mime(Some("Text/HTML"), "").ok(), Some("text/html".to_string()));
    assert_eq!(content_mime(None, "png").ok(), Some("image/png".to_string()));
    assert!(matches!(content_mime(Some("not a mime"), "pdf"), Err(UploadError::InvalidMime)));
    assert!(matches!(pick_mime(Some(None), "x".to_string()), Err(UploadError::InvalidMime)));
    assert_eq!(pick_mime(None, "x/y".to_string()).ok(), Some("x/y".to_string()));
    assert_eq!(pick_mime(Some(Some("a/b".to_string())), "x/y".to_string()).ok(), Some("a/b".to_string()));
}

#[test]
fn liveness_follows_heartbeats() {
    let c = LivenessConfig::default_config();
    assert_eq!(c.status(100, 110), ExecutorStatus::Active);
    assert_eq!(c.status(100, 115), ExecutorStatus::Active);
    assert_eq!(c.status(100, 116), ExecutorStatus::Lost);
    assert_eq!(c.status(100, 175), ExecutorStatus::Lost);
    assert_eq!(c.status(100, 176), ExecutorStatus::Dead);
    assert_eq!(c.status(100, 50), ExecutorStatus::Active);
    assert!(LivenessConfig::new(5, 1, None).is_err());
    let c = LivenessConfig::new(2, 4, None).ok().unwrap();
    assert_eq!(c.executor_death_timeout, 40);
    let c = LivenessConfig::new(u64::MAX, 2, None).ok().unwrap();
    assert_eq!(c.executor_death_timeout, u64::MAX);
    let c = LivenessConfig::new(1, 2, Some(9)).ok().unwrap();
    assert_eq!(c.executor_death_timeout, 9);
}

fn blob() -> DataPayload {
    DataPayload { path: "s3://b/x.pdf".to_string(), size: 9, sha256_hash: "abc".to_string() }
}

#[test]
fn upload_plan_checks_then_builds_both_commands() {
    let s = state_with_content(2);
    let plan = |req: Option<&str>, files: Vec<DataPayload>, label: Option<&str>| {
        plan_upload(&s, "ns".to_string(), "g".to_string(), req, 77, files, "pdf", label, 5)
    };
    assert!(matches!(plan(Some("bad"), vec![], None), Err(UploadError::InvalidId)));
    assert!(matches!(plan(None, vec![], None), Err(UploadError::NoFile)));
    assert!(matches!(plan(None, vec![blob(), blob()], None), Err(UploadError::MultipleFiles)));
    assert!(matches!(plan(None, vec![blob()], Some("??")), Err(UploadError::InvalidMime)));
    match plan(Some("00000000000000ff"), vec![blob()], None) {
        Ok((Command::IngestContent { content }, Command::InvokeGraph { namespace, graph_name, content_id })) => {
            assert_eq!(content.id, 255);
            assert_eq!(content.mime, Some("application/pdf".to_string()));
            assert_eq!(content.payload.path, "s3://b/x.pdf");
            assert_eq!(content.created_at, 5);
            assert!(content.parent_id.is_none() && content.source_fn.is_none());
            assert_eq!((namespace.as_str(), graph_name.as_str(), content_id), ("ns", "g", 255));
        }
        _ => panic!("expected the two upload commands"),
    }
}
