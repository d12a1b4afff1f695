//! Looking at motions and their ballots.

use vstd::prelude::*;
use crate::seqs::{first_hit, opt_text, page, page_of, positions, lemma_positions, opt_texts, contains_string, skip_of, limit_of, DEFAULT_LIMIT};
use crate::table::{has_key, value_of};
use crate::voting::{Contract, JsonMotion, Log, Motion, MotionId, MotionView, Voter, VoterView, voters_view};
use crate::voting::registration::clone_voters;

verus! {

fn clone_log(log: &Vec<Log>) -> (copy: Vec<Log>)
    ensures
        copy@ == log@,
{
    let mut copy: Vec<Log> = Vec::new();
    let mut i: usize = 0;
    while i < log.len()
        invariant
            i <= log.len(),
            copy@ == log@.subrange(0, i as int),
        decreases log.len() - i,
    {
        copy.push(log[i]);
        assert(copy@ =~= log@.subrange(0, i + 1));
        i += 1;
    }
    assert(copy@ =~= log@);
    copy
}

impl Clone for Motion {
    fn clone(&self) -> (copy: Self)
        ensures
            copy@ == self@,
    {
        Motion {
            motion_id: self.motion_id.clone(),
            category: match &self.category {
                Some(c) => Some(c.clone()),
                None => None,
            },
            description: self.description.clone(),
            status: self.status,
            registered: crate::bet::admin::clone_strings(&self.registered),
            log: clone_log(&self.log),
            quorum: self.quorum,
            end: self.end,
        }
    }
}

/// The ballots kept under the identifier `id`; none when nothing is kept
/// under it.
pub open spec fn ballots_of(ballots: Seq<(Seq<char>, Seq<VoterView>)>, id: Seq<char>) -> Seq<
    VoterView,
> {
    if has_key(ballots, id) {
        value_of(ballots, id)
    } else {
        Seq::empty()
    }
}

/// Motion `i` passes the filters of a listing: it is among the motions
/// named, when some are named, and of the category asked for, when one is.
pub open spec fn motion_passes(
    motions: Seq<MotionView>,
    motion_ids: Option<Seq<Seq<char>>>,
    category: Option<Seq<char>>,
    i: int,
) -> bool {
    &&& match motion_ids {
        Some(ids) => ids.contains(motions[i].motion_id),
        None => true,
    }
    &&& match category {
        Some(c) => motions[i].category == Some(c),
        None => true,
    }
}

/// A motion with its voters; without the voters when none are given.
pub fn json_motion(motion: Option<Motion>, voters: Option<Vec<Voter>>) -> (json: Option<JsonMotion>)
    ensures
        match motion {
            Some(m) => {
                &&& json matches Some(j)
                &&& j.motion == m
                &&& j.voters@ == match voters {
                    Some(v) => v@,
                    None => Seq::empty(),
                }
            },
            None => json is None,
        },
{
    if let Some(motion) = motion {
        if let Some(voters) = voters {
            Some(JsonMotion { motion, voters })
        } else {
            Some(JsonMotion { motion, voters: Vec::new() })
        }
    } else {
        None
    }
}

impl Contract {
    /// Motion `i` together with the voters who have voted on it.
    fn json_at(&self, i: usize) -> (json: JsonMotion)
        requires
            i < self@.motions.len(),
        ensures
            json.motion@ == self@.motions[i as int],
            voters_view(json.voters@) == ballots_of(
                self@.voters_per_motion,
                self@.motions[i as int].motion_id,
            ),
    {
        let motion = self.motions[i].clone();
        let voters = match self.voters_per_motion.get(&self.motions[i].motion_id) {
            Some(ballots) => Some(clone_voters(&ballots.voters)),
            None => None,
        };
        match json_motion(Some(motion), voters) {
            Some(json) => json,
            None => JsonMotion { motion: self.motions[i].clone(), voters: Vec::new() },
        }
    }

    /// The first motion with this description, together with the voters
    /// who have voted on it.
    pub fn view_motion_by_description(&self, description: &String) -> (json: Option<JsonMotion>)
        ensures
            ({
                let i = first_hit(
                    self@.motions.len() as int,
                    |i: int| self@.motions[i].description == description@,
                    0,
                );
                match json {
                    Some(j) => {
                        &&& i < self@.motions.len()
                        &&& j.motion@ == self@.motions[i]
                        &&& voters_view(j.voters@) == ballots_of(
                            self@.voters_per_motion,
                            self@.motions[i].motion_id,
                        )
                    },
                    None => i == self@.motions.len(),
                }
            }),
    {
        let ghost motions = self@.motions;
        let ghost hit = |i: int| motions[i].description == description@;
        let mut i: usize = 0;
        while i < self.motions.len()
            invariant
                i <= self.motions@.len(),
                motions == self@.motions,
                hit == (|i: int| motions[i].description == description@),
                first_hit(motions.len() as int, hit, 0) == first_hit(
                    motions.len() as int,
                    hit,
                    i as int,
                ),
            decreases self.motions.len() - i,
        {
            if self.motions[i].description == *description {
                assert(hit(i as int));
                return Some(self.json_at(i));
            }
            assert(!hit(i as int));
            i += 1;
        }
        None
    }

    /// One page of the motions that pass the filters, in the order in
    /// which they were opened, each with the voters who have voted on it.
    pub fn view_motions(
        &self,
        from_index: Option<u128>,
        limit: Option<u64>,
        motion_ids: Option<Vec<MotionId>>,
        category: Option<String>,
    ) -> (listing: Option<Vec<JsonMotion>>)
        ensures
            ({
                let listed = page(
                    positions(
                        self@.motions.len() as int,
                        |i: int|
                            motion_passes(
                                self@.motions,
                                opt_texts(motion_ids),
                                opt_text(category),
                                i,
                            ),
                    ),
                    skip_of(from_index),
                    limit_of(limit),
                );
                &&& listing matches Some(list)
                &&& list@.len() == listed.len()
                &&& forall|k: int|
                    0 <= k < listed.len() ==> {
                        &&& (#[trigger] list@[k]).motion@ == self@.motions[listed[k] as int]
                        &&& voters_view(list@[k].voters@) == ballots_of(
                            self@.voters_per_motion,
                            self@.motions[listed[k] as int].motion_id,
                        )
                    }
            }),
    {
        let start = match from_index {
            Some(start) => start,
            None => 0,
        };
        let size = match limit {
            Some(size) => size,
            None => DEFAULT_LIMIT,
        };
        let ghost motions = self@.motions;
        let ghost ids = opt_texts(motion_ids);
        let ghost wanted: Option<Seq<char>> = opt_text(category);
        let mut selected: Vec<usize> = Vec::new();
        let mut i: usize = 0;
        while i < self.motions.len()
            invariant
                i <= self.motions@.len(),
                motions == self@.motions,
                ids == opt_texts(motion_ids),
                wanted == opt_text(category),
                selected@ == positions(i as int, |i: int| motion_passes(motions, ids, wanted, i)),
            decreases self.motions.len() - i,
        {
            let named = match &motion_ids {
                Some(ids) => contains_string(ids, &self.motions[i].motion_id),
                None => true,
            };
            let fits = match &category {
                Some(c) => match &self.motions[i].category {
                    Some(own) => *own == *c,
                    None => false,
                },
                None => true,
            };
            assert((named && fits) == motion_passes(motions, ids, wanted, i as int));
            if named && fits {
                selected.push(i);
            }
            i += 1;
        }
        proof {
            lemma_positions(motions.len() as int, |i: int| motion_passes(motions, ids, wanted, i));
        }
        let listed = page_of(&selected, start, size);
        let mut list: Vec<JsonMotion> = Vec::new();
        let mut k: usize = 0;
        while k < listed.len()
            invariant
                k <= listed@.len(),
                motions == self@.motions,
                list@.len() == k,
                forall|j: int| 0 <= j < listed@.len() ==> (#[trigger] listed@[j]) < motions.len(),
                forall|j: int|
                    0 <= j < k ==> {
                        &&& (#[trigger] list@[j]).motion@ == motions[listed@[j] as int]
                        &&& voters_view(list@[j].voters@) == ballots_of(
                            self@.voters_per_motion,
                            motions[listed@[j] as int].motion_id,
                        )
                    },
            decreases listed.len() - k,
        {
            list.push(self.json_at(listed[k]));
            k += 1;
        }
        Some(list)
    }
}

} // verus!
