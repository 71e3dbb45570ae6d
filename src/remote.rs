use vstd::prelude::*;
use vstd::string::StringExecFns;

verus! {

/// `s` with every leading copy of the non-empty `p` removed.
pub open spec fn trim_prefixes(s: Seq<char>, p: Seq<char>) -> Seq<char>
    decreases s.len(),
{
    if p.len() > 0 && p.len() <= s.len() && s.take(p.len() as int) == p {
        trim_prefixes(s.skip(p.len() as int), p)
    } else {
        s
    }
}

/// Relies on `str::trim_start_matches` with a string pattern: all prefixes
/// that match the pattern are removed, repeatedly.
#[verifier::external_body]
fn trim_start<'a>(s: &'a str, p: &str) -> (r: &'a str)
    requires
        p@.len() > 0,
    ensures
        r@ == trim_prefixes(s@, p@),
{
    s.trim_start_matches(p)
}

/// The address to clone a repository from, with the credentials in it:
/// `https://user:password@` before the repository address without its scheme.
pub open spec fn remote_url_of(username: Seq<char>, password: Seq<char>, url: Seq<char>) -> Seq<
    char,
> {
    "https://"@ + username + ":"@ + password + "@"@ + trim_prefixes(url, "https://"@)
}

/// The address to clone a repository from, with the credentials in it.
pub fn remote_url(username: &str, password: &str, url: &str) -> (r: String)
    ensures
        r@ == remote_url_of(username@, password@, url@),
{
    let scheme = "https://";
    proof {
        reveal_strlit("https://");
    }
    let rest = trim_start(url, scheme);
    let mut s = String::from_str(scheme);
    s.append(username);
    s.append(":");
    s.append(password);
    s.append("@");
    s.append(rest);
    s
}

} // verus!
