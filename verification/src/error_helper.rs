//! Error messages with a tip and numbered steps to fix the problem, colored
//! for the terminal when the terminal takes colors.
use vstd::prelude::*;
use colored::Colorize;
use crate::text::{contains, str_has, owned, push_str, push_decimal, decimal};

verus! {

/// The reset sequence that ends a colored text.
pub open spec fn ansi_reset() -> Seq<char> {
    "\u{1b}[0m"@
}

/// `r` shows the text `s`: `s` itself (colors off), or `s` between a style
/// sequence and the reset sequence; a text holding a reset sequence itself
/// may come out otherwise.
pub open spec fn shown(s: Seq<char>, r: Seq<char>) -> bool {
    ||| r == s
    ||| exists|code: Seq<char>| r == "\u{1b}["@ + code + "m"@ + s + ansi_reset()
    ||| str_has(s, ansi_reset())
}

/// `colored`: `s` in bold red, as displayed. Whether colors are used depends
/// on the environment and the terminal.
#[verifier::external_body]
fn red_bold(s: &str) -> (r: String)
    ensures
        shown(s@, r@),
{
    s.red().bold().to_string()
}

/// `colored`: `s` in yellow, as displayed.
#[verifier::external_body]
fn yellow(s: &str) -> (r: String)
    ensures
        shown(s@, r@),
{
    s.yellow().to_string()
}

/// `colored`: `s` in bold yellow, as displayed.
#[verifier::external_body]
fn yellow_bold(s: &str) -> (r: String)
    ensures
        shown(s@, r@),
{
    s.yellow().bold().to_string()
}

/// What `anyhow::Error`'s `Display` shows for an error: its outermost message.
pub uninterp spec fn error_display(e: anyhow::Error) -> Seq<char>;

/// The display text of an error (`anyhow::Error`'s `Display`); the text is
/// named by `error_display`.
#[verifier::external_body]
fn error_text(error: &anyhow::Error) -> (r: String)
    ensures
        r@ == error_display(*error),
{
    error.to_string()
}

/// The tip and fix steps for an error message, if it is a known kind.
pub open spec fn error_help(e: Seq<char>) -> Option<(Seq<char>, Seq<Seq<char>>)> {
    if str_has(e, "Invalid address format"@) {
        Some((
            "Ethereum addresses must start with '0x' and be 42 characters long"@,
            seq!["Example: 0x1234567890123456789012345678901234567890"@, "Verify address at: https://etherscan.io"@],
        ))
    } else if str_has(e, "API error"@) || str_has(e, "rate limit"@) {
        Some((
            "API key required or rate limit exceeded"@,
            seq![
                "Set key: export ETHERSCAN_API_KEY=your_key"@,
                "Or run: scpf init (interactive setup)"@,
                "Get keys: https://etherscan.io/apis"@,
            ],
        ))
    } else if str_has(e, "No templates found"@) {
        Some((
            "Templates directory is empty or missing"@,
            seq![
                "Initialize: scpf init"@,
                "Or specify: scpf scan --templates ./my-templates"@,
                "Docs: https://github.com/Teycir/smartcontractpatternfinder#templates"@,
            ],
        ))
    } else if str_has(e, "Invalid regex"@) {
        Some((
            "Template contains invalid regex pattern"@,
            seq!["Test regex: https://regex101.com"@, "Docs: https://docs.rs/regex"@, "Check template YAML syntax"@],
        ))
    } else if str_has(e, "Failed to fetch"@) || str_has(e, "network"@) {
        Some((
            "Network connection issue"@,
            seq![
                "Check internet connection"@,
                "Retry with: --concurrency 1"@,
                "Check API status: https://etherscan.io/apis"@,
            ],
        ))
    } else {
        None
    }
}

/// The numbered fix lines for the shown steps `cs`, from number 1.
pub open spec fn fix_lines(cs: Seq<Seq<char>>) -> Seq<char>
    decreases cs.len(),
{
    if cs.len() == 0 {
        Seq::empty()
    } else {
        fix_lines(cs.drop_last()) + "   "@ + decimal(cs.len()) + ". "@ + cs.last() + "\n"@
    }
}

/// `r` is the help text of the error message `e`: a red cross and the
/// message, then, for a known kind of error, the tip after a bulb, `Fix:`
/// and the numbered steps, the tip and steps in yellow.
pub open spec fn help_text(e: Seq<char>, r: Seq<char>) -> bool {
    exists|cross: Seq<char>| #[trigger] shown("✗"@, cross) && match error_help(e) {
        None => r == cross + " "@ + e,
        Some((tip, steps)) => exists|bulb: Seq<char>, tipc: Seq<char>, fixc: Seq<char>, stepcs: Seq<Seq<char>>|
            #[trigger] shown("💡"@, bulb) && #[trigger] shown(tip, tipc) && #[trigger] shown("Fix:"@, fixc)
                && stepcs.len() == steps.len() && (forall|i: int| 0 <= i < steps.len() ==> #[trigger] shown(steps[i], stepcs[i]))
                && r == cross + " "@ + e + "\n"@ + "\n"@ + bulb + " "@ + tipc + "\n"@ + fixc + "\n"@ + #[trigger] fix_lines(stepcs),
    }
}

/// The tip and steps for an error message, if it is a known kind.
pub fn error_help_of(e: &str) -> (r: Option<(&'static str, Vec<&'static str>)>)
    ensures
        match r {
            None => error_help(e@) is None,
            Some((tip, steps)) => error_help(e@) == Some((tip@, steps@.map_values(|s: &str| s@))),
        },
{
    if contains(e, "Invalid address format") {
        let steps = vec!["Example: 0x1234567890123456789012345678901234567890", "Verify address at: https://etherscan.io"];
        assert(steps@.map_values(|s: &str| s@) =~= seq!["Example: 0x1234567890123456789012345678901234567890"@, "Verify address at: https://etherscan.io"@]);
        Some(("Ethereum addresses must start with '0x' and be 42 characters long", steps))
    } else if contains(e, "API error") || contains(e, "rate limit") {
        let steps = vec!["Set key: export ETHERSCAN_API_KEY=your_key", "Or run: scpf init (interactive setup)", "Get keys: https://etherscan.io/apis"];
        assert(steps@.map_values(|s: &str| s@) =~= seq!["Set key: export ETHERSCAN_API_KEY=your_key"@, "Or run: scpf init (interactive setup)"@, "Get keys: https://etherscan.io/apis"@]);
        Some(("API key required or rate limit exceeded", steps))
    } else if contains(e, "No templates found") {
        let steps = vec!["Initialize: scpf init", "Or specify: scpf scan --templates ./my-templates", "Docs: https://github.com/Teycir/smartcontractpatternfinder#templates"];
        assert(steps@.map_values(|s: &str| s@) =~= seq!["Initialize: scpf init"@, "Or specify: scpf scan --templates ./my-templates"@, "Docs: https://github.com/Teycir/smartcontractpatternfinder#templates"@]);
        Some(("Templates directory is empty or missing", steps))
    } else if contains(e, "Invalid regex") {
        let steps = vec!["Test regex: https://regex101.com", "Docs: https://docs.rs/regex", "Check template YAML syntax"];
        assert(steps@.map_values(|s: &str| s@) =~= seq!["Test regex: https://regex101.com"@, "Docs: https://docs.rs/regex"@, "Check template YAML syntax"@]);
        Some(("Template contains invalid regex pattern", steps))
    } else if contains(e, "Failed to fetch") || contains(e, "network") {
        let steps = vec!["Check internet connection", "Retry with: --concurrency 1", "Check API status: https://etherscan.io/apis"];
        assert(steps@.map_values(|s: &str| s@) =~= seq!["Check internet connection"@, "Retry with: --concurrency 1"@, "Check API status: https://etherscan.io/apis"@]);
        Some(("Network connection issue", steps))
    } else {
        None
    }
}

/// The help text for the error message `error_str`.
pub fn format_error_text_with_help(error_str: &str) -> (r: String)
    ensures
        help_text(error_str@, r@),
{
    let cross = red_bold("✗");
    let mut output = owned(cross.as_str());
    push_str(&mut output, " ");
    push_str(&mut output, error_str);
    let (tip, fix) = match error_help_of(error_str) {
        Some(h) => h,
        None => {
            return output;
        },
    };
    push_str(&mut output, "\n");
    push_str(&mut output, "\n");
    let bulb = yellow("💡");
    push_str(&mut output, bulb.as_str());
    push_str(&mut output, " ");
    let tipc = yellow(tip);
    push_str(&mut output, tipc.as_str());
    push_str(&mut output, "\n");
    let fixc = yellow_bold("Fix:");
    push_str(&mut output, fixc.as_str());
    push_str(&mut output, "\n");
    let ghost head = output@;
    let ghost steps = fix@.map_values(|s: &str| s@);
    let ghost mut stepcs: Seq<Seq<char>> = Seq::empty();
    let mut i: usize = 0;
    while i < fix.len()
        invariant
            i <= fix.len(),
            steps == fix@.map_values(|s: &str| s@),
            stepcs.len() == i,
            forall|k: int| 0 <= k < i ==> #[trigger] shown(steps[k], stepcs[k]),
            output@ == head + fix_lines(stepcs),
        decreases fix.len() - i,
    {
        let step = fix[i];
        let stepc = yellow(step);
        push_str(&mut output, "   ");
        push_decimal(&mut output, i + 1);
        push_str(&mut output, ". ");
        push_str(&mut output, stepc.as_str());
        push_str(&mut output, "\n");
        proof {
            let prev = stepcs;
            stepcs = stepcs.push(stepc@);
            assert(stepcs.drop_last() =~= prev);
            assert(steps[i as int] == step@);
            assert forall|k: int| 0 <= k < i + 1 implies #[trigger] shown(steps[k], stepcs[k]) by {
                if k < i {
                    assert(stepcs[k] == prev[k]);
                }
            }
        }
        i = i + 1;
    }
    proof {
        let e = error_str@;
        let (tip_s, steps_s) = error_help(e).unwrap();
        assert(shown("💡"@, bulb@) && shown(tip_s, tipc@) && shown("Fix:"@, fixc@));
        assert(output@ == cross@ + " "@ + e + "\n"@ + "\n"@ + bulb@ + " "@ + tipc@ + "\n"@ + fixc@ + "\n"@ + fix_lines(stepcs));
    }
    output
}

/// The help text for an error: its message with a red cross, then for a
/// known kind of error a tip and numbered steps to fix it.
pub fn format_error_with_help(error: &anyhow::Error) -> (r: String)
    ensures
        help_text(error_display(*error), r@),
{
    let message = error_text(error);
    format_error_text_with_help(message.as_str())
}

} // verus!
