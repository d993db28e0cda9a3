//! Feedback report: the log's last lines and the report text.

use vstd::prelude::*;
use crate::codec::lossy_text;
use crate::lines::{
    join_from, join_lines, lemma_lines_concat, lemma_lines_no_newline, lemma_lines_of_join, lines_of,
    lines_spec, newlines_in, no_newline,
};
use crate::text::{chars_of, contains_seq, decimal, decimal_string, occurs_at};
use crate::client::cat;

verus! {

/// Most log lines in a report.
pub const LOG_TAIL_LINES: usize = 500;

/// Size of the blocks read from the end of the log.
pub const TAIL_CHUNK: u64 = 8 * 1024;

/// Text shown when the log cannot be read.
pub const UNREADABLE_LOG: &'static str = "（日志文件不可读）";

/// The last `max_lines` lines of a text, joined by `\n`.
pub open spec fn tail_spec(text: Seq<char>, max_lines: nat) -> Seq<char> {
    let ls = lines_spec(text);
    let start = if ls.len() > max_lines {
        ls.len() - max_lines
    } else {
        0
    };
    join_lines(ls.skip(start))
}

/// The tail of a text never holds more than `max_lines` lines.
pub proof fn law_tail_at_most_max_lines(text: Seq<char>, max_lines: nat)
    ensures
        lines_spec(tail_spec(text, max_lines)).len() <= max_lines,
{
    let ls = lines_spec(text);
    let start = if ls.len() > max_lines {
        ls.len() - max_lines
    } else {
        0
    };
    let t = ls.skip(start);
    lemma_lines_no_newline(text);
    assert forall|j: int| 0 <= j < t.len() implies no_newline(#[trigger] t[j]) by {
        assert(t[j] == ls[j + start]);
    }
    lemma_lines_of_join(t);
}

/// Reading a text backwards until more than `max_lines` newlines were seen
/// loses nothing: the tail of the part read is the tail of the whole text.
/// (Reading until the start leaves nothing unread.)
pub proof fn law_tail_of_suffix(before: Seq<char>, read: Seq<char>, max_lines: nat)
    requires
        newlines_in(read) > max_lines,
    ensures
        tail_spec(before + read, max_lines) == tail_spec(read, max_lines),
{
    lemma_lines_concat(before, read, max_lines);
    let (x, y, d) = choose|x: Seq<Seq<char>>, y: Seq<Seq<char>>, d: Seq<Seq<char>>|
        #![trigger x + d, y + d]
        lines_spec(before + read) == x + d && lines_spec(read) == y + d && x.len() >= 1 && y.len()
            >= 1 && d.len() >= max_lines;
    let lt = x + d;
    let ls = y + d;
    assert(lt.skip(lt.len() - max_lines) =~= d.skip(d.len() - max_lines));
    assert(ls.skip(ls.len() - max_lines) =~= d.skip(d.len() - max_lines));
}

/// The last `max_lines` lines of a text.
pub fn tail_lines(text: &str, max_lines: usize) -> (r: String)
    ensures
        r@ == tail_spec(text@, max_lines as nat),
{
    let v = chars_of(text);
    let ls = lines_of(&v);
    let start = if ls.len() > max_lines {
        ls.len() - max_lines
    } else {
        0
    };
    join_from(&ls, start)
}

/// The last lines of the bytes read from the end of the log, decoded
/// (invalid UTF-8 replaced).
pub fn tail_of_bytes(bytes: &Vec<u8>, max_lines: usize) -> (r: String)
    ensures
        r@ == tail_spec(crate::codec::utf8_lossy(bytes@), max_lines as nat),
{
    let text = lossy_text(bytes.as_slice());
    tail_lines(text.as_str(), max_lines)
}

/// Number of `\n` bytes in a block.
pub open spec fn newline_count(b: Seq<u8>) -> nat
    decreases b.len(),
{
    if b.len() == 0 {
        0
    } else {
        newline_count(b.drop_last()) + if b.last() == 10 {
            1nat
        } else {
            0nat
        }
    }
}

/// Number of `\n` bytes in a block.
pub fn count_newlines(b: &[u8]) -> (r: usize)
    ensures
        r == newline_count(b@),
{
    let mut n: usize = 0;
    let mut i: usize = 0;
    while i < b.len()
        invariant
            i <= b@.len(),
            n == newline_count(b@.take(i as int)),
            n <= i,
        decreases b.len() - i,
    {
        assert(b@.take(i + 1).drop_last() =~= b@.take(i as int));
        if b[i] == 10u8 {
            n = n + 1;
        }
        i = i + 1;
    }
    assert(b@.take(b@.len() as int) =~= b@);
    n
}

/// Where the next block to read starts and how long it is, reading backwards
/// from `cursor`; `None` once the start is reached or more than `max_lines`
/// newlines were seen (so that the last `max_lines` lines are all whole).
pub fn next_tail_block(cursor: u64, newlines: usize, max_lines: usize) -> (r: Option<(u64, u64)>)
    ensures
        match r {
            Some((start, n)) => cursor > 0 && newlines <= max_lines && n == (if cursor < TAIL_CHUNK {
                cursor
            } else {
                TAIL_CHUNK
            }) && start == cursor - n,
            None => cursor == 0 || newlines > max_lines,
        },
{
    if cursor > 0 && newlines <= max_lines {
        let n = if cursor < TAIL_CHUNK {
            cursor
        } else {
            TAIL_CHUNK
        };
        Some((cursor - n, n))
    } else {
        None
    }
}

/// What the report says of the running session.
pub struct ReportContext {
    pub version: String,
    pub package: String,
    pub profile: String,
    pub os: String,
    pub os_version: String,
    pub arch: String,
    pub data_dir: String,
    pub log_file: String,
    pub project: Option<String>,
    pub environment: Option<String>,
    /// Port of the running mock server, if one runs (0 when unknown).
    pub mock_port: Option<u16>,
}

/// Numbered step lines, from number `k`.
pub open spec fn step_lines(steps: Seq<String>, k: nat) -> Seq<char>
    decreases steps.len(),
{
    if steps.len() == 0 {
        Seq::empty()
    } else {
        decimal(k) + ". "@ + steps[0]@ + "\n"@ + step_lines(steps.drop_first(), k + 1)
    }
}

/// Environment part of the report.
pub open spec fn env_part(c: ReportContext) -> Seq<char> {
    "# RustFox 问题反馈\n\n"@ + "## 环境信息\n\n"@ + "- 应用版本："@ + c.version@ + "（"@ + c.package@
        + "，"@ + c.profile@ + "）\n"@ + "- 操作系统："@ + c.os@ + " "@ + c.os_version@ + "（"@
        + c.arch@ + " 架构）\n"@ + "- 数据目录："@ + c.data_dir@ + "\n"@ + "- 日志文件："@
        + c.log_file@ + "\n"@
}

/// Context part of the report.
pub open spec fn context_part(c: ReportContext) -> Seq<char> {
    "\n## 当前上下文\n\n"@ + match c.project {
        Some(p) => "- 当前项目："@ + p@ + "\n"@,
        None => "- 当前项目：无\n"@,
    } + match c.environment {
        Some(e) => "- 当前环境："@ + e@ + "\n"@,
        None => "- 当前环境：无\n"@,
    } + "- Mock 服务："@ + match c.mock_port {
        Some(p) => "运行中（port "@ + decimal(p as nat) + "）\n"@,
        None => "未运行\n"@,
    }
}

/// Steps part of the report.
pub open spec fn steps_part(steps: Seq<String>) -> Seq<char> {
    "\n## 最近操作步骤\n\n"@ + if steps.len() == 0 {
        "（暂无操作记录）\n"@
    } else {
        step_lines(steps, 1)
    }
}

/// The report's markdown text.
pub open spec fn report_spec(c: ReportContext, steps: Seq<String>, log: Seq<char>) -> Seq<char> {
    env_part(c) + context_part(c) + steps_part(steps) + "\n## 日志（最近 500 行）\n\n```text\n"@ + log
        + "```\n"@
}

fn push_str(out: &mut String, s: &str)
    ensures
        final(out)@ == old(out)@ + s@,
{
    let t = cat(out.as_str(), s);
    *out = t;
}

fn env_text(c: &ReportContext) -> (r: String)
    ensures
        r@ == env_part(*c),
{
    let mut md = String::new();
    push_str(&mut md, "# RustFox 问题反馈\n\n");
    push_str(&mut md, "## 环境信息\n\n");
    push_str(&mut md, "- 应用版本：");
    push_str(&mut md, c.version.as_str());
    push_str(&mut md, "（");
    push_str(&mut md, c.package.as_str());
    push_str(&mut md, "，");
    push_str(&mut md, c.profile.as_str());
    push_str(&mut md, "）\n");
    push_str(&mut md, "- 操作系统：");
    push_str(&mut md, c.os.as_str());
    push_str(&mut md, " ");
    push_str(&mut md, c.os_version.as_str());
    push_str(&mut md, "（");
    push_str(&mut md, c.arch.as_str());
    push_str(&mut md, " 架构）\n");
    push_str(&mut md, "- 数据目录：");
    push_str(&mut md, c.data_dir.as_str());
    push_str(&mut md, "\n");
    push_str(&mut md, "- 日志文件：");
    push_str(&mut md, c.log_file.as_str());
    push_str(&mut md, "\n");
    assert(md@ =~= env_part(*c));
    md
}

fn context_text(c: &ReportContext) -> (r: String)
    ensures
        r@ == context_part(*c),
{
    let mut md = String::new();
    push_str(&mut md, "\n## 当前上下文\n\n");
    match &c.project {
        Some(p) => {
            push_str(&mut md, "- 当前项目：");
            push_str(&mut md, p.as_str());
            push_str(&mut md, "\n");
        },
        None => {
            push_str(&mut md, "- 当前项目：无\n");
        },
    }
    match &c.environment {
        Some(e) => {
            push_str(&mut md, "- 当前环境：");
            push_str(&mut md, e.as_str());
            push_str(&mut md, "\n");
        },
        None => {
            push_str(&mut md, "- 当前环境：无\n");
        },
    }
    push_str(&mut md, "- Mock 服务：");
    match c.mock_port {
        Some(p) => {
            push_str(&mut md, "运行中（port ");
            let d = decimal_string(p as u64);
            push_str(&mut md, d.as_str());
            push_str(&mut md, "）\n");
        },
        None => {
            push_str(&mut md, "未运行\n");
        },
    }
    assert(md@ =~= context_part(*c));
    md
}

fn steps_text(steps: &Vec<String>) -> (r: String)
    ensures
        r@ == steps_part(steps@),
{
    let mut md = String::new();
    push_str(&mut md, "\n## 最近操作步骤\n\n");
    let ghost before_steps = md@;
    if steps.len() == 0 {
        push_str(&mut md, "（暂无操作记录）\n");
    } else {
        let mut i: usize = 0;
        assert(steps@.skip(0) =~= steps@);
        while i < steps.len()
            invariant
                i <= steps@.len(),
                md@ + step_lines(steps@.skip(i as int), (i + 1) as nat) == before_steps
                    + step_lines(steps@, 1),
            decreases steps.len() - i,
        {
            let ghost prev = md@;
            let num = decimal_string((i + 1) as u64);
            push_str(&mut md, num.as_str());
            push_str(&mut md, ". ");
            push_str(&mut md, steps[i].as_str());
            push_str(&mut md, "\n");
            proof {
                let rest = steps@.skip(i as int);
                assert(rest[0] == steps@[i as int]);
                assert(rest.drop_first() =~= steps@.skip(i + 1));
                assert(step_lines(rest, (i + 1) as nat) == decimal((i + 1) as nat) + ". "@ + rest[0]@
                    + "\n"@ + step_lines(rest.drop_first(), (i + 2) as nat));
                assert(md@ =~= prev + decimal((i + 1) as nat) + ". "@ + steps@[i as int]@ + "\n"@);
                assert(md@ + step_lines(steps@.skip(i + 1), (i + 2) as nat) =~= prev + step_lines(
                    rest,
                    (i + 1) as nat,
                ));
            }
            i = i + 1;
        }
        proof {
            assert(steps@.skip(steps@.len() as int) =~= Seq::<String>::empty());
            assert(md@ =~= before_steps + step_lines(steps@, 1));
        }
    }
    md
}

/// Build the report: environment, current context, recent steps (numbered
/// from 1), and the log's last lines.
pub fn report_markdown(c: &ReportContext, steps: &Vec<String>, log_tail: &str) -> (r: String)
    ensures
        r@ == report_spec(*c, steps@, log_tail@),
{
    let mut md = env_text(c);
    let ctx = context_text(c);
    push_str(&mut md, ctx.as_str());
    let st = steps_text(steps);
    push_str(&mut md, st.as_str());
    push_str(&mut md, "\n## 日志（最近 500 行）\n\n```text\n");
    push_str(&mut md, log_tail);
    push_str(&mut md, "```\n");
    md
}

/// The report names the current project and environment: the line for each
/// holds its name when there is one, and says `无` when there is none.
pub proof fn law_report_names_context(c: ReportContext, steps: Seq<String>, log: Seq<char>)
    ensures
        c.environment matches Some(e) ==> contains_seq(report_spec(c, steps, log), "- 当前环境："@ + e@ + "\n"@),
        c.environment is None ==> contains_seq(report_spec(c, steps, log), "- 当前环境：无\n"@),
        c.project matches Some(p) ==> contains_seq(report_spec(c, steps, log), "- 当前项目："@ + p@ + "\n"@),
        c.project is None ==> contains_seq(report_spec(c, steps, log), "- 当前项目：无\n"@),
{
    let head = env_part(c) + "\n## 当前上下文\n\n"@;
    let pline = match c.project {
        Some(p) => "- 当前项目："@ + p@ + "\n"@,
        None => "- 当前项目：无\n"@,
    };
    let eline = match c.environment {
        Some(e) => "- 当前环境："@ + e@ + "\n"@,
        None => "- 当前环境：无\n"@,
    };
    let mline = "- Mock 服务："@ + match c.mock_port {
        Some(p) => "运行中（port "@ + decimal(p as nat) + "）\n"@,
        None => "未运行\n"@,
    };
    let tail = steps_part(steps) + "\n## 日志（最近 500 行）\n\n```text\n"@ + log + "```\n"@;
    let r = report_spec(c, steps, log);
    assert(r =~= head + pline + eline + mline + tail);
    let kp = head.len() as int;
    let ke = (head + pline).len() as int;
    assert(r.subrange(kp, kp + pline.len()) =~= pline);
    assert(r.subrange(ke, ke + eline.len()) =~= eline);
    assert(occurs_at(r, pline, kp));
    assert(occurs_at(r, eline, ke));
}

/// The report holds the log tail, in a text block under its heading.
pub proof fn law_report_holds_log(c: ReportContext, steps: Seq<String>, log: Seq<char>)
    ensures
        contains_seq(report_spec(c, steps, log), "\n## 日志（最近 500 行）\n\n```text\n"@ + log + "```\n"@),
{
    let lb = "\n## 日志（最近 500 行）\n\n```text\n"@ + log + "```\n"@;
    let pre = env_part(c) + context_part(c) + steps_part(steps);
    let r = report_spec(c, steps, log);
    assert(r =~= pre + lb);
    assert(r.subrange(pre.len() as int, (pre.len() + lb.len()) as int) =~= lb);
    assert(occurs_at(r, lb, pre.len() as int));
}

} // verus!
