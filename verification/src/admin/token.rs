use vstd::prelude::*;
use crate::utils::string::{decimal, push_text, to_small_string};

verus! {

/// How many times a new registration token may be used: the number given,
/// else once with `--once`, else without limit.
pub fn token_max_uses(max_uses: Option<u64>, once: bool) -> (r: Option<u64>)
    ensures
        r == match max_uses {
            Some(m) => Some(m),
            None => if once {
                Some(1u64)
            } else {
                None
            },
        },
{
    match max_uses {
        Some(m) => Some(m),
        None => if once {
            Some(1)
        } else {
            None
        },
    }
}

/// The first line of a token listing.
pub fn token_list_header(count: u64) -> (r: String)
    ensures
        r@ == "Found "@ + decimal(count as nat) + " registration tokens:\n"@,
{
    proof {
        reveal_strlit("Found ");
        reveal_strlit(" registration tokens:\n");
    }
    let mut s = String::new();
    push_text(&mut s, "Found ");
    let n = to_small_string(count);
    push_text(&mut s, n.as_str());
    push_text(&mut s, " registration tokens:\n");
    proof {
        assert(s@ =~= "Found "@ + decimal(count as nat) + " registration tokens:\n"@);
    }
    s
}

/// One line of a token listing.
pub fn token_list_line(token: &str) -> (r: String)
    ensures
        r@ == "- "@ + token@ + "\n"@,
{
    proof {
        reveal_strlit("- ");
        reveal_strlit("\n");
    }
    let mut s = String::new();
    push_text(&mut s, "- ");
    push_text(&mut s, token);
    push_text(&mut s, "\n");
    proof {
        assert(s@ =~= "- "@ + token@ + "\n"@);
    }
    s
}

/// The answer to issuing a token.
pub fn token_issued(token: &str, info: &str) -> (r: String)
    ensures
        r@ == "New registration token issued: `"@ + token@ + "` - "@ + info@,
{
    proof {
        reveal_strlit("New registration token issued: `");
        reveal_strlit("` - ");
    }
    let mut s = String::new();
    push_text(&mut s, "New registration token issued: `");
    push_text(&mut s, token);
    push_text(&mut s, "` - ");
    push_text(&mut s, info);
    proof {
        assert(s@ =~= "New registration token issued: `"@ + token@ + "` - "@ + info@);
    }
    s
}

} // verus!
