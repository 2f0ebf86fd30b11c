//! What the commands decide.
use vstd::prelude::*;
use vstd::string::*;

pub mod add;
pub mod digest;
pub mod list;
pub mod remove;

verus! {

/// What a flag that shapes the digest is refused with beside a command.
pub open spec fn refusal(limit: bool, subscribed: bool, sort: bool, command: bool) -> Option<
    Seq<char>,
> {
    if !command {
        None
    } else if limit {
        Some("--limit can only be used when rendering the digest"@)
    } else if subscribed {
        Some("--subscribed can only be used when rendering the digest"@)
    } else if sort {
        Some("--sort can only be used when rendering the digest"@)
    } else {
        None
    }
}

/// Whether the flags go with each other: those that shape the digest are refused beside a command.
/// Each argument says whether that was given.
pub fn check_flags(limit: bool, subscribed: bool, sort: bool, command: bool) -> (res: Result<
    (),
    &'static str,
>)
    ensures
        match res {
            Ok(_) => refusal(limit, subscribed, sort, command) is None,
            Err(text) => refusal(limit, subscribed, sort, command) == Some(text@),
        },
{
    if limit && command {
        return Err("--limit can only be used when rendering the digest");
    }
    if subscribed && command {
        return Err("--subscribed can only be used when rendering the digest");
    }
    if sort && command {
        return Err("--sort can only be used when rendering the digest");
    }
    Ok(())
}

} // verus!
