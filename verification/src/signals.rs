use vstd::prelude::*;

verus! {

/// The on-topic jargon pattern: words and names that mark a post as being
/// about programming, electronics or adjacent maker topics.
pub const TOPIC_PATTERN: &'static str = r"(?i)\b(Rust|C\+\+|cpp|js|c#|swift|dotnet|php|Python|JavaScript|RustLang|Embedded dev|Microcontroller|IoT|Arduino|RaspberryPi|Programming|Software Developer|Software Developers|Dev|Hardware|Compiler|OpenSource|GitHub|Linux|Kernel|RTOS|ESP32|Pico|rp\s?2040|rp\s?2350|Micropython|VS Code|JetBrains|spi|i2c|soldering|waveshare|maker|adafruit)\b";

/// The narrative-form pattern: words that mark a post as a write-up, thread
/// or other long-form explanatory piece rather than a one-line remark.
pub const FORM_PATTERN: &'static str = r"(?i)\b(blog|post|article|thread|write-up|guide|tutorial|how-to|explainer|deep dive|🧵|working|threads|project)\b";

/// The denylist pattern: excluded topics; a fragment matching it poisons the
/// whole post.
pub const DENY_PATTERN: &'static str = r"(?i)\b(musk|elon|trump|united states|flordia|texas|doge|government|president|potus|maga|vance)\b";

/// Whether the on-topic jargon pattern matches somewhere in the text.
pub uninterp spec fn topic_match(text: Seq<char>) -> bool;

/// Whether the narrative-form pattern matches somewhere in the text.
pub uninterp spec fn form_match(text: Seq<char>) -> bool;

/// Whether the denylist pattern matches somewhere in the text.
pub uninterp spec fn deny_match(text: Seq<char>) -> bool;

/// Whether the profanity detector flags the text as inappropriate.
pub uninterp spec fn flagged_inappropriate(text: Seq<char>) -> bool;

/// Relies on regex::Regex::is_match with the fixed pattern TOPIC_PATTERN:
/// the pattern is a valid regex, so Regex::new cannot fail, and whether the
/// haystack contains a match depends on the haystack text alone.
#[verifier::external_body]
pub(crate) fn matches_topic(text: &str) -> (r: bool)
    ensures
        r == topic_match(text@),
{
    regex::Regex::new(TOPIC_PATTERN).unwrap().is_match(text)
}

/// Relies on regex::Regex::is_match with the fixed pattern FORM_PATTERN:
/// the pattern is a valid regex, so Regex::new cannot fail, and whether the
/// haystack contains a match depends on the haystack text alone.
#[verifier::external_body]
pub(crate) fn matches_form(text: &str) -> (r: bool)
    ensures
        r == form_match(text@),
{
    regex::Regex::new(FORM_PATTERN).unwrap().is_match(text)
}

/// Relies on regex::Regex::is_match with the fixed pattern DENY_PATTERN:
/// the pattern is a valid regex, so Regex::new cannot fail, and whether the
/// haystack contains a match depends on the haystack text alone.
#[verifier::external_body]
pub(crate) fn matches_deny(text: &str) -> (r: bool)
    ensures
        r == deny_match(text@),
{
    regex::Regex::new(DENY_PATTERN).unwrap().is_match(text)
}

/// Relies on rustrict::CensorStr::is_inappropriate for &str: with the crate's
/// built-in word list (this library never customizes it) the verdict is a
/// function of the text alone, and the call never panics.
#[verifier::external_body]
pub(crate) fn is_flagged_inappropriate(text: &str) -> (r: bool)
    ensures
        r == flagged_inappropriate(text@),
{
    rustrict::CensorStr::is_inappropriate(text)
}

} // verus!
