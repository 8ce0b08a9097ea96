//! Classification of MQTT subscription paths.
//!
//! A subscription path that begins with `$share` or `$queue` is a shared
//! subscription; the broker routes such subscriptions through a group
//! rather than to a single session.

use vstd::prelude::*;

verus! {

/// Prefix that marks a shared group subscription path.
pub const SHARE_SUB_PREFIX: &'static str = "$share";

/// Prefix that marks a queue subscription path.
pub const QUEUE_SUB_PREFIX: &'static str = "$queue";

/// `p` is a prefix of `s`.
pub open spec fn seq_has_prefix(s: Seq<char>, p: Seq<char>) -> bool {
    p.len() <= s.len() && s.subrange(0, p.len() as int) == p
}

/// Whether `prefix` is a prefix of `s`, decided character by character.
pub fn str_has_prefix(s: &str, prefix: &str) -> (r: bool)
    ensures
        r == seq_has_prefix(s@, prefix@),
{
    let n = prefix.unicode_len();
    let m = s.unicode_len();
    if n > m {
        return false;
    }
    let mut i: usize = 0;
    while i < n
        invariant
            i <= n,
            n == prefix@.len(),
            n <= m,
            m == s@.len(),
            forall|j: int| 0 <= j < i ==> s@[j] == prefix@[j],
        decreases n - i,
    {
        if s.get_char(i) != prefix.get_char(i) {
            proof {
                assert(s@.subrange(0, n as int)[i as int] == s@[i as int]);
            }
            return false;
        }
        i += 1;
    }
    proof {
        assert(s@.subrange(0, n as int) =~= prefix@);
    }
    true
}

/// The path names a shared subscription of either form.
pub fn is_mqtt_share_subscribe(sub_name: &str) -> (r: bool)
    ensures
        r == (seq_has_prefix(sub_name@, "$share"@) || seq_has_prefix(sub_name@, "$queue"@)),
{
    is_mqtt_share_sub(sub_name) || is_mqtt_queue_sub(sub_name)
}

/// The path names a shared group subscription.
pub fn is_mqtt_share_sub(sub_name: &str) -> (r: bool)
    ensures
        r == seq_has_prefix(sub_name@, "$share"@),
{
    str_has_prefix(sub_name, "$share")
}

/// The path names a queue subscription.
pub fn is_mqtt_queue_sub(sub_name: &str) -> (r: bool)
    ensures
        r == seq_has_prefix(sub_name@, "$queue"@),
{
    str_has_prefix(sub_name, "$queue")
}

} // verus!
