//! Live-update channel rules: the session token a connection presents and
//! which messages are passed on to every client.
use vstd::prelude::*;
use crate::text::{split_char, split_chars, str_eq, str_starts_with, starts_with, trim, trim_spec};

verus! {

/// The value of the first `access_token=` pair among cookie pairs.
pub open spec fn first_access_token(pairs: Seq<Seq<char>>) -> Option<Seq<char>>
    decreases pairs.len(),
{
    if pairs.len() == 0 {
        None
    } else {
        let p = trim_spec(pairs[0]);
        if starts_with(p, "access_token="@) {
            Some(p.skip(13))
        } else {
            first_access_token(pairs.drop_first())
        }
    }
}

/// The session token in a `Cookie` header: the value of the first pair,
/// split at `;` and trimmed, that starts with `access_token=`.
pub fn cookie_access_token(cookies: &str) -> (r: Option<String>)
    ensures
        match r {
            Some(t) => first_access_token(split_char(cookies@, ';')) == Some(t@),
            None => first_access_token(split_char(cookies@, ';')) is None,
        },
{
    let pairs = split_chars(cookies, ';');
    let ghost all = split_char(cookies@, ';');
    let mut i: usize = 0;
    proof {
        assert(all.skip(0) =~= all);
    }
    while i < pairs.len()
        invariant
            all == split_char(cookies@, ';'),
            pairs@.map_values(|p: String| p@) == all,
            i <= pairs.len(),
            first_access_token(all) == first_access_token(all.skip(i as int)),
        decreases pairs.len() - i,
    {
        let p = trim(pairs[i].as_str());
        assert(pairs@[i as int]@ == all[i as int]);
        assert(all.skip(i as int).len() > 0);
        assert(all.skip(i as int)[0] == all[i as int]);
        assert(all.skip(i as int).drop_first() =~= all.skip(i + 1));
        if str_starts_with(p.as_str(), "access_token=") {
            proof {
                reveal_strlit("access_token=");
            }
            let cs = crate::text::chars_of(p.as_str());
            let v = crate::text::string_of_range(&cs, 13, cs.len());
            assert(v@ =~= p@.skip(13));
            return Some(v);
        }
        i += 1;
    }
    None
}

/// Whether a client's message is passed on to every client: all but the
/// keep-alive `ping`.
pub fn relays_message(kind: &str) -> (r: bool)
    ensures
        r == (kind@ != "ping"@),
{
    !str_eq(kind, "ping")
}

} // verus!
