//! Reports for others to read, and the prompt that asks what could be automated.

use vstd::prelude::*;

use crate::text;

verus! {

/// What a shared report says: the breakdown of the work and, where there is one, what could be
/// automated.
pub open spec fn shared_report(breakdown: Seq<char>, automation: Option<Seq<char>>) -> Seq<char> {
    match automation {
        Some(a) => breakdown + "\n\n== 自動化できそうな作業（Copilot提案） ==\n"@ + a,
        None => breakdown,
    }
}

/// What a shared report says: the breakdown of the work and, where there is one, what could be
/// automated.
pub fn shared_report_text(breakdown: &str, automation: Option<&str>) -> (r: String)
    ensures
        r@ == shared_report(
            breakdown@,
            match automation {
                Some(a) => Some(a@),
                None => None,
            },
        ),
{
    let mut out: String = text::copy(breakdown);
    if let Some(a) = automation {
        out.push_str("\n\n== 自動化できそうな作業（Copilot提案） ==\n");
        out.push_str(a);
    }
    out
}

/// The name of the file of a shared report.
pub fn shared_report_name(date: &str) -> (r: String)
    ensures
        r@ == date@ + " 作業レポート.txt"@,
{
    text::concat(date, " 作業レポート.txt")
}

/// The prompt that asks what could be automated.
pub open spec fn automation_request(persona: Seq<char>, report: Seq<char>) -> Seq<char> {
    "以下は『"@ + persona
        + "』のPC作業ログの集計です。ここから、繰り返し・定型で\u{201c}自動化できそうな作業\u{201d}を重要な順に箇条書きで挙げてください。"@
        + "各項目は『作業内容 → 自動化の方針』の形で1〜2行にし、推測しすぎず、どのアプリ/ウィンドウから読み取れるかの根拠も短く添えてください。\n\n"@
        + report
}

/// The prompt that asks what of the work in a report could be automated.
pub fn automation_prompt(persona: &str, report_text: &str) -> (r: String)
    ensures
        r@ == automation_request(persona@, report_text@),
{
    let mut out: String = text::copy("以下は『");
    out.push_str(persona);
    out.push_str(
        "』のPC作業ログの集計です。ここから、繰り返し・定型で\u{201c}自動化できそうな作業\u{201d}を重要な順に箇条書きで挙げてください。",
    );
    out.push_str(
        "各項目は『作業内容 → 自動化の方針』の形で1〜2行にし、推測しすぎず、どのアプリ/ウィンドウから読み取れるかの根拠も短く添えてください。\n\n",
    );
    out.push_str(report_text);
    out
}

/// What is said where there is no log for a day.
pub fn no_activity_log(path: &str) -> (r: String)
    ensures
        r@ == "活動ログがありません: "@ + path@ + "（まず記録を溜めてください）"@,
{
    let mut out: String = text::copy("活動ログがありません: ");
    out.push_str(path);
    out.push_str("（まず記録を溜めてください）");
    out
}

/// A shared report holds the whole breakdown and, behind a heading, all of what could be automated
/// where that is known. The prompt holds the persona and the whole report, and always asks for the
/// same.
pub proof fn law_reports_hold_everything(
    persona: Seq<char>,
    breakdown: Seq<char>,
    automation: Seq<char>,
)
    ensures
        shared_report(breakdown, None) == breakdown,
        shared_report(breakdown, Some(automation)) == breakdown
            + "\n\n== 自動化できそうな作業（Copilot提案） ==\n"@ + automation,
        automation_request(persona, breakdown) == "以下は『"@ + persona
            + "』のPC作業ログの集計です。ここから、繰り返し・定型で\u{201c}自動化できそうな作業\u{201d}を重要な順に箇条書きで挙げてください。"@
            + "各項目は『作業内容 → 自動化の方針』の形で1〜2行にし、推測しすぎず、どのアプリ/ウィンドウから読み取れるかの根拠も短く添えてください。\n\n"@
            + breakdown,
{
}

} // verus!
