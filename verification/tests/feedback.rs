use rustfox::feedback::{
    count_newlines, next_tail_block, report_markdown, tail_lines, tail_of_bytes, ReportContext,
    LOG_TAIL_LINES, TAIL_CHUNK, UNREADABLE_LOG,
};

#[test]
fn tail_returns_last_lines_of_large_file() {
    let content: String = (0..2000).map(|i| format!("line {i}\n")).collect();
    assert!(content.len() > TAIL_CHUNK as usize);
    let tail = tail_of_bytes(&content.into_bytes(), 500);
    let lines: Vec<&str> = tail.lines().collect();
    assert_eq!(lines.len(), 500);
    assert_eq!(lines[0], "line 1500");
    assert_eq!(lines[499], "line 1999");
}

#[test]
fn tail_without_trailing_newline_includes_last_line() {
    assert_eq!(tail_of_bytes(&b"a\nb\nc\nd".to_vec(), 2), "c\nd");
}

#[test]
fn tail_smaller_than_request_returns_all() {
    assert_eq!(tail_of_bytes(&b"x\ny\n".to_vec(), 500), "x\ny");
}

#[test]
fn tail_empty_file_returns_empty() {
    assert_eq!(tail_of_bytes(&Vec::new(), 500), "");
}

#[test]
fn tail_handles_crlf_and_zero_lines() {
    assert_eq!(tail_lines("a\r\nb\r\nc\r\n", 2), "b\nc");
    assert_eq!(tail_lines("a\nb", 0), "");
    assert_eq!(tail_of_bytes(&vec![b'o', b'k', 0xff], 1), "ok\u{fffd}");
    assert_eq!(UNREADABLE_LOG, "（日志文件不可读）");
    assert_eq!(LOG_TAIL_LINES, 500);
}

#[test]
fn blocks_are_read_backwards() {
    assert_eq!(count_newlines(b"a\nb\n\nc"), 3);
    assert_eq!(next_tail_block(20_000, 0, 500), Some((20_000 - TAIL_CHUNK, TAIL_CHUNK)));
    assert_eq!(next_tail_block(100, 3, 500), Some((0, 100)));
    assert_eq!(next_tail_block(0, 3, 500), None);
    assert_eq!(next_tail_block(5_000, 500, 500), Some((0, 5_000)));
    assert_eq!(next_tail_block(5_000, 501, 500), None);
}

fn ctx(project: Option<&str>, mock_port: Option<u16>) -> ReportContext {
    ReportContext {
        version: "0.3.1".into(),
        package: "fox-desktop".into(),
        profile: "release".into(),
        os: "linux".into(),
        os_version: "6.8".into(),
        arch: "x86_64".into(),
        data_dir: "/data".into(),
        log_file: "/data/logs/rustfox.log".into(),
        project: project.map(|p| p.to_string()),
        environment: None,
        mock_port,
    }
}

#[test]
fn report_lists_context_steps_and_log() {
    let md = report_markdown(&ctx(Some("p-1"), Some(8080)), &vec!["打开项目".to_string(), "发送请求".to_string()], "log line");
    assert_eq!(
        md,
        "# RustFox 问题反馈\n\n## 环境信息\n\n- 应用版本：0.3.1（fox-desktop，release）\n- 操作系统：linux 6.8（x86_64 架构）\n- 数据目录：/data\n- 日志文件：/data/logs/rustfox.log\n\n## 当前上下文\n\n- 当前项目：p-1\n- 当前环境：无\n- Mock 服务：运行中（port 8080）\n\n## 最近操作步骤\n\n1. 打开项目\n2. 发送请求\n\n## 日志（最近 500 行）\n\n```text\nlog line```\n"
    );
    let md = report_markdown(&ctx(None, None), &Vec::new(), "");
    assert!(md.contains("- 当前项目：无\n"));
    assert!(md.contains("- Mock 服务：未运行\n"));
    assert!(md.contains("（暂无操作记录）\n"));
}

#[test]
fn tail_never_exceeds_requested_lines() {
    let samples = ["", "a", "a\n", "a\nb\n\n", "x\r\ny\r\r\nz", "\n\n\n", "one\ntwo\nthree"];
    for text in samples {
        for n in 0..5 {
            let tail = tail_lines(text, n);
            assert!(tail.lines().count() <= n, "{text:?} {n}");
        }
    }
}

/// Read `bytes` backwards block by block, as the log reader does, and take
/// the tail of what was collected.
fn blockwise_tail(bytes: &[u8], max_lines: usize) -> String {
    let mut chunks: Vec<Vec<u8>> = Vec::new();
    let mut newlines = 0usize;
    let mut cursor = bytes.len() as u64;
    while let Some((start, n)) = next_tail_block(cursor, newlines, max_lines) {
        let chunk = bytes[start as usize..(start + n) as usize].to_vec();
        newlines += count_newlines(&chunk);
        chunks.push(chunk);
        cursor = start;
    }
    let mut tail = Vec::new();
    for chunk in chunks.into_iter().rev() {
        tail.extend_from_slice(&chunk);
    }
    tail_of_bytes(&tail, max_lines)
}

#[test]
fn line_across_block_boundary_stays_whole() {
    let mut bytes = vec![b'x'; 9000];
    bytes.push(b'\n');
    let tail = blockwise_tail(&bytes, 1);
    assert_eq!(tail.len(), 9000);
    assert_eq!(tail, tail_of_bytes(&bytes, 1));

    let mut bytes = b"first\n".to_vec();
    bytes.extend(vec![b'y'; 8190]);
    bytes.extend_from_slice(b"\nlast\n");
    for n in 1..4 {
        assert_eq!(blockwise_tail(&bytes, n), tail_of_bytes(&bytes, n));
    }
}

#[test]
fn blockwise_tail_matches_whole_file() {
    let content: String = (0..3000).map(|i| format!("entry number {i}\n")).collect();
    for n in [1, 2, 500, 2999, 3000, 4000] {
        assert_eq!(blockwise_tail(content.as_bytes(), n), tail_of_bytes(&content.clone().into_bytes(), n));
    }
}
