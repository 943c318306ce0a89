use vstd::prelude::*;

verus! {

/// The text enclosed between a style sequence and the reset sequence.
pub open spec fn decorated(decoration: Seq<char>, text: Seq<char>) -> Seq<char> {
    decoration + text + "\x1b[0m"@
}

pub open spec fn red_spec(text: Seq<char>) -> Seq<char> {
    decorated("\x1B[31m"@, text)
}

pub open spec fn green_spec(text: Seq<char>) -> Seq<char> {
    decorated("\x1B[32m"@, text)
}

pub open spec fn yellow_spec(text: Seq<char>) -> Seq<char> {
    decorated("\x1B[33m"@, text)
}

pub open spec fn underlined_spec(text: Seq<char>) -> Seq<char> {
    decorated("\x1B[4m"@, text)
}

pub fn red(text: &str) -> (r: String)
    ensures
        r@ == red_spec(text@),
{
    wrap(text, "\x1B[31m")
}

pub fn green(text: &str) -> (r: String)
    ensures
        r@ == green_spec(text@),
{
    wrap(text, "\x1B[32m")
}

pub fn yellow(text: &str) -> (r: String)
    ensures
        r@ == yellow_spec(text@),
{
    wrap(text, "\x1B[33m")
}

pub fn underlined(text: &str) -> (r: String)
    ensures
        r@ == underlined_spec(text@),
{
    wrap(text, "\x1B[4m")
}

fn wrap(text: &str, decoration: &str) -> (r: String)
    ensures
        r@ == decorated(decoration@, text@),
{
    let mut out = String::from_str(decoration);
    out.append(text);
    out.append("\x1b[0m");
    out
}

} // verus!
