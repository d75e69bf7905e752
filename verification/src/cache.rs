//! The level cache: memoizes one generated level per id, so that repeated
//! queries within a session are idempotent and cheap. An id, once generated,
//! is never regenerated or mutated.

use vstd::prelude::*;

use crate::geom::Vec3;
use crate::level::{level_valid, Block, Hsl, Level};

verus! {

/// The observable content of a level: its metadata and the sequence of its
/// blocks. Two levels with equal models are interchangeable to every caller.
#[verifier::ext_equal]
pub ghost struct LevelModel {
    pub id: u32,
    pub blocks: Seq<Block>,
    pub point_threshold_hundredths: u64,
    pub spawn_point: Vec3,
    pub duration_secs: u64,
    pub back_color: Hsl,
    pub accent_color: Hsl,
}

/// The model of a level value.
pub open spec fn model(l: Level) -> LevelModel {
    LevelModel {
        id: l.id,
        blocks: l.blocks@,
        point_threshold_hundredths: l.point_threshold_hundredths,
        spawn_point: l.spawn_point,
        duration_secs: l.duration_secs,
        back_color: l.back_color,
        accent_color: l.accent_color,
    }
}

/// The first cached level with the given id, if any.
pub open spec fn find_model(s: Seq<Level>, id: u32) -> Option<LevelModel>
    decreases s.len(),
{
    if s.len() == 0 {
        None
    } else if s[0].id == id {
        Some(model(s[0]))
    } else {
        find_model(s.drop_first(), id)
    }
}

/// What one `get_level` call promises about the cache state before and
/// after, and about the returned level.
pub open spec fn get_level_rel(pre: Seq<Level>, post: Seq<Level>, l: Level, id: u32) -> bool {
    &&& l.id == id
    &&& find_model(post, id) == Some(model(l))
    &&& (find_model(pre, id) is Some ==> post == pre && Some(model(l)) == find_model(pre, id))
    &&& (find_model(pre, id) is None ==> post.len() == pre.len() + 1 && post.subrange(
        0,
        pre.len() as int,
    ) == pre && model(post.last()) == model(l))
}

/// Memoization is permanent: of two consecutive queries for the same id, the
/// second returns a level with exactly the same content (the same block
/// sequence and metadata) and leaves the cache untouched.
pub proof fn lemma_cache_idempotent(
    s0: Seq<Level>,
    s1: Seq<Level>,
    s2: Seq<Level>,
    l1: Level,
    l2: Level,
    id: u32,
)
    requires
        get_level_rel(s0, s1, l1, id),
        get_level_rel(s1, s2, l2, id),
    ensures
        model(l2) == model(l1),
        s2 == s1,
{
}

/// Appending a level with the sought id to a cache that lacks it makes the
/// lookup find exactly that level.
proof fn lemma_find_push(s: Seq<Level>, l: Level, id: u32)
    requires
        find_model(s, id) is None,
        l.id == id,
    ensures
        find_model(s.push(l), id) == Some(model(l)),
    decreases s.len(),
{
    if s.len() == 0 {
        assert(s.push(l)[0] == l);
    } else {
        assert(s.push(l)[0] == s[0]);
        assert(s.push(l).drop_first() =~= s.drop_first().push(l));
        lemma_find_push(s.drop_first(), l, id);
    }
}

/// A lookup that hits at index `k`, with no hit before it, returns the model
/// of the entry at `k`.
proof fn lemma_find_at(s: Seq<Level>, id: u32, k: int)
    requires
        0 <= k < s.len(),
        s[k].id == id,
        forall|i: int| 0 <= i < k ==> (#[trigger] s[i]).id != id,
    ensures
        find_model(s, id) == Some(model(s[k])),
    decreases k,
{
    if k > 0 {
        assert(s.drop_first()[k - 1] == s[k]);
        assert(forall|i: int| 0 <= i < k - 1 ==> (#[trigger] s.drop_first()[i]).id != id);
        lemma_find_at(s.drop_first(), id, k - 1);
    }
}

/// A deep copy of a level: same metadata, same block sequence.
fn clone_level(l: &Level) -> (c: Level)
    ensures
        model(c) == model(*l),
{
    let mut blocks: Vec<Block> = Vec::new();
    let mut k: usize = 0;
    while k < l.blocks.len()
        invariant
            k <= l.blocks@.len(),
            blocks@ == l.blocks@.take(k as int),
        decreases l.blocks@.len() - k,
    {
        blocks.push(l.blocks[k]);
        proof {
            assert(blocks@ =~= l.blocks@.take(k + 1 as int));
        }
        k = k + 1;
    }
    proof {
        assert(blocks@ =~= l.blocks@);
    }
    let c = Level {
        id: l.id,
        blocks,
        point_threshold_hundredths: l.point_threshold_hundredths,
        spawn_point: l.spawn_point,
        duration_secs: l.duration_secs,
        back_color: l.back_color,
        accent_color: l.accent_color,
    };
    proof {
        assert(model(c) =~= model(*l));
    }
    c
}

/// The session-wide level store. `levels` holds every level generated so
/// far, in generation order; all of them satisfy `level_valid`.
pub struct Info {
    pub levels: Vec<Level>,
}

/// Every cached level is a valid generated level.
pub open spec fn info_wf(info: Info) -> bool {
    forall|i: int| 0 <= i < info.levels@.len() ==> level_valid(#[trigger] info.levels@[i])
}

impl core::default::Default for Info {
    /// An empty cache, as a session starts with.
    fn default() -> (res: Info)
        ensures
            res.levels@.len() == 0,
            info_wf(res),
    {
        Info { levels: Vec::new() }
    }
}

impl Info {
    /// Returns the level for `current_level`: a copy of the cached one when
    /// this id was generated before, else a freshly synthesized level that
    /// is cached before being returned. Queries for one id always yield the
    /// same content within a session.
    pub fn get_level(&mut self, current_level: u32, rng: &mut rand::rngs::StdRng) -> (l: Level)
        requires
            info_wf(*old(self)),
        ensures
            info_wf(*final(self)),
            l.id == current_level,
            level_valid(l),
            get_level_rel(old(self).levels@, final(self).levels@, l, current_level),
    {
        let ghost s = self.levels@;
        let mut k: usize = 0;
        while k < self.levels.len()
            invariant
                k <= s.len(),
                forall|i: int| 0 <= i < k ==> (#[trigger] s[i]).id != current_level,
            decreases s.len() - k,
        {
            if self.levels[k].id == current_level {
                proof {
                    lemma_find_at(s, current_level, k as int);
                }
                let l = clone_level(&self.levels[k]);
                proof {
                    assert(level_valid(l)) by {
                        assert(level_valid(s[k as int]));
                        assert(l.blocks@ == s[k as int].blocks@);
                    }
                }
                return l;
            }
            k = k + 1;
        }
        proof {
            assert(find_model(s, current_level) is None) by {
                if find_model(s, current_level) is Some {
                    lemma_find_some_witness(s, current_level);
                }
            }
        }
        let fresh = Level::gen(current_level, rng);
        let ret = clone_level(&fresh);
        proof {
            lemma_find_push(s, fresh, current_level);
        }
        self.levels.push(fresh);
        proof {
            assert(level_valid(ret)) by {
                assert(ret.blocks@ == fresh.blocks@);
            }
            assert(final(self).levels@.subrange(0, s.len() as int) =~= s);
        }
        ret
    }
}

/// A successful lookup exhibits an entry with the sought id.
proof fn lemma_find_some_witness(s: Seq<Level>, id: u32)
    requires
        find_model(s, id) is Some,
    ensures
        exists|i: int| 0 <= i < s.len() && (#[trigger] s[i]).id == id,
    decreases s.len(),
{
    if s.len() > 0 {
        if s[0].id == id {
        } else {
            lemma_find_some_witness(s.drop_first(), id);
            let i = choose|i: int| 0 <= i < s.drop_first().len() && (#[trigger] s.drop_first()[i]).id
                == id;
            assert(s[i + 1] == s.drop_first()[i]);
        }
    }
}

} // verus!
