use vstd::prelude::*;
use crate::text::chars_of;

verus! {

/// The arguments of a run: the host or IP address to probe.
#[derive(Clone, Debug)]
pub struct CliArgs {
    pub target_host: String,
}

/// What `str::trim` makes of a text.
pub uninterp spec fn trimmed_of(s: Seq<char>) -> Seq<char>;

/// What `str::to_lowercase` makes of a text.
pub uninterp spec fn lowercase_of(s: Seq<char>) -> Seq<char>;

/// Relies on `str::trim`: the text without leading and trailing white
/// space, which depends on the text alone.
#[verifier::external_body]
fn trim(s: &str) -> (r: String)
    ensures
        r@ == trimmed_of(s@),
{
    s.trim().to_string()
}

/// Relies on `str::to_lowercase`: the lowercase form of the text, which
/// depends on the text alone.
#[verifier::external_body]
fn lowercase(s: &str) -> (r: String)
    ensures
        r@ == lowercase_of(s@),
{
    s.to_lowercase()
}

pub open spec fn is_yes(folded: Seq<char>) -> bool {
    folded == seq!['y'] || folded == seq!['y', 'e', 's']
}

/// Whether an answer that is already trimmed and in lowercase says yes.
pub fn is_affirmative(folded: &str) -> (r: bool)
    ensures
        r == is_yes(folded@),
{
    let c = chars_of(folded);
    if c.len() == 1 {
        let r = c[0] == 'y';
        assert(r ==> c@ =~= seq!['y']);
        r
    } else if c.len() == 3 {
        let r = c[0] == 'y' && c[1] == 'e' && c[2] == 's';
        assert(r ==> c@ =~= seq!['y', 'e', 's']);
        r
    } else {
        false
    }
}

/// Whether the operator's answer to "continue?" is `y` or `yes`, in any
/// case and with surrounding white space.
pub fn should_continue(answer: &str) -> (r: bool)
    ensures
        r == is_yes(lowercase_of(trimmed_of(answer@))),
{
    let t = trim(answer);
    let folded = lowercase(t.as_str());
    is_affirmative(folded.as_str())
}

/// The target host that the operator typed, without surrounding white space.
pub fn target_from_input(line: &str) -> (r: CliArgs)
    ensures
        r.target_host@ == trimmed_of(line@),
{
    CliArgs { target_host: trim(line) }
}

} // verus!
