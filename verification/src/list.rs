//! Choosing among saved recordings.

use vstd::prelude::*;

verus! {

/// What one saved recording file reports about itself.
pub struct ProfileInfo {
    /// The file's path.
    pub path: String,
    /// The recorded process's name.
    pub process_name: String,
    /// The recorded process's id.
    pub pid: u32,
    /// The recording's length in milliseconds.
    pub duration_ms: u64,
    /// Total CPU samples recorded.
    pub samples: u64,
    /// When the recording started, in a lexicographically ordered form.
    pub created: String,
}

/// Lexicographic order on character sequences.
pub open spec fn spec_str_le(a: Seq<char>, b: Seq<char>) -> bool
    decreases a.len(),
{
    if a.len() == 0 {
        true
    } else if b.len() == 0 {
        false
    } else if (a[0] as u32) < (b[0] as u32) {
        true
    } else if (a[0] as u32) > (b[0] as u32) {
        false
    } else {
        spec_str_le(a.drop_first(), b.drop_first())
    }
}

/// Compare two strings lexicographically.
pub fn str_le(a: &str, b: &str) -> (r: bool)
    ensures
        r == spec_str_le(a@, b@),
    decreases a@.len(),
{
    let alen = a.unicode_len();
    let blen = b.unicode_len();
    if alen == 0 {
        return true;
    }
    if blen == 0 {
        return false;
    }
    let ca = a.get_char(0) as u32;
    let cb = b.get_char(0) as u32;
    if ca < cb {
        true
    } else if ca > cb {
        false
    } else {
        let ra = a.substring_char(1, alen);
        let rb = b.substring_char(1, blen);
        proof {
            assert(ra@ =~= a@.drop_first());
            assert(rb@ =~= b@.drop_first());
        }
        str_le(ra, rb)
    }
}

/// The most recent of a set of recordings: the index of the first entry
/// whose creation string is greatest. The creation strings order
/// lexicographically by time.
pub fn most_recent_profile(profiles: &Vec<ProfileInfo>) -> (r: Option<usize>)
    ensures
        match r {
            Some(i) => i < profiles@.len() && forall|j: int|
                0 <= j < profiles@.len() ==> spec_str_le(
                    (#[trigger] profiles@[j]).created@,
                    profiles@[i as int].created@,
                ),
            None => profiles@.len() == 0,
        },
{
    if profiles.len() == 0 {
        return None;
    }
    let mut best: usize = 0;
    let mut i: usize = 1;
    proof {
        lemma_str_le_refl(profiles@[0].created@);
    }
    while i < profiles.len()
        invariant
            best < profiles@.len(),
            1 <= i <= profiles@.len(),
            forall|j: int|
                0 <= j < i ==> spec_str_le(
                    (#[trigger] profiles@[j]).created@,
                    profiles@[best as int].created@,
                ),
        decreases profiles@.len() - i,
    {
        if !str_le(profiles[i].created.as_str(), profiles[best].created.as_str()) {
            proof {
                lemma_str_le_total(profiles@[i as int].created@, profiles@[best as int].created@);
                assert forall|j: int|
                    0 <= j < i + 1 implies spec_str_le(
                    (#[trigger] profiles@[j]).created@,
                    profiles@[i as int].created@,
                ) by {
                    if j < i {
                        lemma_str_le_trans(
                            profiles@[j].created@,
                            profiles@[best as int].created@,
                            profiles@[i as int].created@,
                        );
                    } else {
                        lemma_str_le_refl(profiles@[i as int].created@);
                    }
                }
            }
            best = i;
        } else {
            proof {
                lemma_str_le_refl(profiles@[best as int].created@);
            }
        }
        i += 1;
    }
    Some(best)
}

/// Lexicographic order is total: two strings always compare one way.
pub proof fn lemma_str_le_total(a: Seq<char>, b: Seq<char>)
    ensures
        spec_str_le(a, b) || spec_str_le(b, a),
    decreases a.len(),
{
    if a.len() > 0 && b.len() > 0 && (a[0] as u32) == (b[0] as u32) {
        lemma_str_le_total(a.drop_first(), b.drop_first());
    }
}

/// Lexicographic order is reflexive.
pub proof fn lemma_str_le_refl(a: Seq<char>)
    ensures
        spec_str_le(a, a),
    decreases a.len(),
{
    if a.len() > 0 {
        lemma_str_le_refl(a.drop_first());
    }
}

/// Lexicographic order is transitive.
pub proof fn lemma_str_le_trans(a: Seq<char>, b: Seq<char>, c: Seq<char>)
    requires
        spec_str_le(a, b),
        spec_str_le(b, c),
    ensures
        spec_str_le(a, c),
    decreases a.len(),
{
    if a.len() > 0 && b.len() > 0 && c.len() > 0 {
        if (a[0] as u32) == (b[0] as u32) && (b[0] as u32) == (c[0] as u32) {
            lemma_str_le_trans(a.drop_first(), b.drop_first(), c.drop_first());
        }
    }
}

} // verus!
