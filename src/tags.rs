//! Fresh three-letter country tags.
use vstd::prelude::*;
use crate::chars::push_char;
use crate::game::{tag_index, CwGameHoi4};

verus! {

/// How many numbers have a tag of three ASCII characters.
pub const TAG_LIMIT: i32 = 42588;

/// The tag of `num`: three characters counting from `A` in base 26, the
/// first one unbounded.
pub open spec fn tag_for(num: int) -> Seq<char> {
    seq![
        ((65 + num / 676) as u8) as char,
        ((65 + (num % 676) / 26) as u8) as char,
        ((65 + num % 26) as u8) as char,
    ]
}

/// Tags that name devices on some systems, so that no file may be called so.
pub open spec fn reserved_tag(t: Seq<char>) -> bool {
    t == "AUX"@ || t == "CON"@ || t == "AND"@
}

/// A tag that must not be handed out in `game`.
pub open spec fn taken(t: Seq<char>, game: &CwGameHoi4) -> bool {
    reserved_tag(t) || tag_index(game@.countries, t, 0) < game@.countries.len()
}

/// Hands out tags in the order of their numbers, skipping the taken ones.
pub struct TagGenerator {
    next_tag: i32,
}

impl TagGenerator {
    /// The number whose tag comes next.
    pub closed spec fn next_num(&self) -> int {
        self.next_tag as int
    }

    pub open spec fn wf(&self) -> bool {
        0 <= self.next_num() <= TAG_LIMIT
    }

    pub fn new() -> (r: Self)
        ensures
            r.wf(),
            r.next_num() == 0,
    {
        TagGenerator { next_tag: 0 }
    }

    /// The tag of `num`.
    pub fn get_tag_for_num(num: i32) -> (r: String)
        requires
            0 <= num < TAG_LIMIT,
        ensures
            r@ == tag_for(num as int),
    {
        let b0 = (65 + num / 676) as u8;
        let b1 = (65 + (num % 676) / 26) as u8;
        let b2 = (65 + num % 26) as u8;
        let mut s = String::new();
        push_char(&mut s, b0 as char);
        push_char(&mut s, b1 as char);
        push_char(&mut s, b2 as char);
        assert(s@ =~= tag_for(num as int));
        s
    }

    /// The next tag that is neither reserved nor used by a country of `game`;
    /// none when every remaining number is taken.
    pub fn next(&mut self, game: &CwGameHoi4) -> (r: Option<String>)
        requires
            old(self).wf(),
        ensures
            final(self).wf(),
            match r {
                Some(t) => {
                    &&& old(self).next_num() < final(self).next_num()
                    &&& t@ == tag_for(final(self).next_num() - 1)
                    &&& !taken(t@, game)
                    &&& forall|k: int|
                        old(self).next_num() <= k < final(self).next_num() - 1 ==> taken(
                            #[trigger] tag_for(k),
                            game,
                        )
                },
                None => {
                    &&& final(self).next_num() == TAG_LIMIT
                    &&& forall|k: int|
                        old(self).next_num() <= k < TAG_LIMIT ==> taken(#[trigger] tag_for(k), game)
                },
            },
    {
        loop
            invariant
                0 <= old(self).next_tag <= self.next_tag <= TAG_LIMIT,
                forall|k: int|
                    old(self).next_tag <= k < self.next_tag ==> taken(#[trigger] tag_for(k), game),
            decreases TAG_LIMIT - self.next_tag,
        {
            if self.next_tag >= TAG_LIMIT {
                return None;
            }
            let num = self.next_tag;
            let tag = Self::get_tag_for_num(num);
            self.next_tag = num + 1;
            let reserved = tag == "AUX".to_owned() || tag == "CON".to_owned() || tag
                == "AND".to_owned();
            if reserved {
                continue;
            }
            if game.country_for_tag(tag.as_str()).is_some() {
                continue;
            }
            return Some(tag);
        }
    }
}

} // verus!
