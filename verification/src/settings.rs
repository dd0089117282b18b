//! Configuration lookup: the one decision the surrounding file picker
//! takes from configuration, namely whether a configured default
//! overrides the interactive choice.

use vstd::prelude::*;

verus! {

/// The value of the first pair bearing `key`, if any.
pub open spec fn lookup_spec(pairs: Seq<(Seq<char>, Seq<char>)>, key: Seq<char>) -> Option<
    Seq<char>,
>
    decreases pairs.len(),
{
    if pairs.len() == 0 {
        None
    } else if pairs[0].0 == key {
        Some(pairs[0].1)
    } else {
        lookup_spec(pairs.drop_first(), key)
    }
}

/// The configured default for `key`: the value of the first
/// configuration pair that bears the key, or `None` when the key is
/// not configured and the caller must ask instead.
pub fn default_file_for(config: &Vec<(String, String)>, key: &String) -> (r: Option<String>)
    ensures
        match r {
            Some(v) => lookup_spec(config.deep_view(), key@) == Some(v@),
            None => lookup_spec(config.deep_view(), key@) is None,
        },
{
    let ghost pairs = config.deep_view();
    let mut k: usize = 0;
    proof {
        assert(pairs.skip(0) =~= pairs);
    }
    while k < config.len()
        invariant
            k <= config.len(),
            pairs == config.deep_view(),
            lookup_spec(pairs, key@) == lookup_spec(pairs.skip(k as int), key@),
        decreases config.len() - k,
    {
        if config[k].0 == *key {
            proof {
                assert(pairs.skip(k as int)[0] == pairs[k as int]);
            }
            return Some(config[k].1.clone());
        }
        proof {
            assert(pairs.skip(k as int)[0] == pairs[k as int]);
            assert(pairs.skip(k as int).drop_first() =~= pairs.skip(k + 1 as int));
        }
        k = k + 1;
    }
    proof {
        assert(pairs.skip(config.len() as int) =~= Seq::<(Seq<char>, Seq<char>)>::empty());
    }
    None
}

} // verus!
