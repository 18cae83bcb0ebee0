use vstd::prelude::*;

use crate::player::{abs, anim_after, Player, Tag, ANIM_STEP, LIMIT};
use crate::world::{layer_wf, spawn_of, tile_in, World};

verus! {

/// Radius in pixels within which the player talks to an entity.
pub const TALK_RADIUS: i64 = 32;

/// Radius in pixels within which the player reaches the bird.
pub const REACH_RADIUS: i64 = 8;

/// Animation time past which the reward scene offers the carrot.
pub const REWARD_OFFER_TIME: u32 = 3750;

/// Animation time the reward scene rewinds to after offering.
pub const REWARD_REWIND_TIME: u32 = 3700;

/// Animation time past which the birthday scene sends the mail.
pub const BIRTHDAY_SEND_TIME: u32 = 650;

/// Column of the door that opens once the player may pass.
pub const DOOR_X: i16 = 79;

/// Rows of the door's two tiles.
pub const DOOR_TOP: i16 = 1;
pub const DOOR_BOTTOM: i16 = 2;

/// Number of entities of a level.
pub const ENTITY_COUNT: usize = 21;

/// Which condition an entity shows under, and what it does to the quest.
#[derive(PartialEq, Eq, Structural, Clone, Copy, Debug)]
pub enum Behavior {
    MailMarker,
    MailRequest,
    MailThanks,
    HenryReward,
    CarrotOffer,
    TonyMarker,
    BirdFoodRequest,
    BirdFoodReminder,
    TonyThanks,
    Bird,
    BirdFeeder,
    BirdEating,
    BirthdayMarker,
    BirthdayRequest,
    BirthdayCelebration,
    BirthdayThanks,
    GiftShopMarker,
    GiftShopRequest,
    GiftShopThanks,
    MilkHandover,
    MilkOffer,
}

/// A prompt shown under an entity; accepting it grants a flag.
#[derive(PartialEq, Eq, Structural, Clone, Copy, Debug)]
pub enum Prompt {
    TakeMail,
    AcceptCarrot,
    TakeBirdFood,
    FeedBird,
    GiveGift,
    GiveMilk,
    AcceptMilk,
    SelectGift,
}

/// Animations that entities show.
#[derive(PartialEq, Eq, Structural, Clone, Copy, Debug, Hash)]
pub enum Sprite {
    PointOfInterest,
    HenryGetReward,
    Bird,
    BirdEating,
    BirthdayHappy,
}

/// What an entity shows while its condition holds.
pub enum DrawType {
    Nothing,
    Animation(Sprite),
    TextBubble(String),
}

pub struct Entity {
    pub x: i32,
    pub y: i32,
    pub behavior: Behavior,
    pub draw_type: DrawType,
    pub anim_frame: u32,
}

/// What one evaluation of an entity's condition decides.
pub struct Verdict {
    pub visible: bool,
    pub pushed: Seq<Tag>,
    pub anim: u32,
    pub prompt: Option<Prompt>,
}

/// What the engine reports of one entity for one frame.
#[derive(PartialEq, Eq, Structural, Clone, Copy, Debug)]
pub struct Shown {
    pub visible: bool,
    pub prompt: Option<Prompt>,
    /// Animation time to draw the entity at this frame.
    pub time: u32,
}

impl Prompt {
    pub open spec fn spec_grants(self) -> Tag {
        match self {
            Prompt::TakeMail => Tag::HasMail,
            Prompt::AcceptCarrot => Tag::HasCarrot,
            Prompt::TakeBirdFood => Tag::HasBirdFood,
            Prompt::FeedBird => Tag::HasFedBird,
            Prompt::GiveGift => Tag::HasGivenGift,
            Prompt::GiveMilk => Tag::SelectingGift,
            Prompt::AcceptMilk => Tag::HasMilk,
            Prompt::SelectGift => Tag::HasGift,
        }
    }

    /// The flag that accepting the prompt grants.
    pub fn grants(&self) -> (r: Tag)
        ensures
            r == self.spec_grants(),
    {
        match self {
            Prompt::TakeMail => Tag::HasMail,
            Prompt::AcceptCarrot => Tag::HasCarrot,
            Prompt::TakeBirdFood => Tag::HasBirdFood,
            Prompt::FeedBird => Tag::HasFedBird,
            Prompt::GiveGift => Tag::HasGivenGift,
            Prompt::GiveMilk => Tag::SelectingGift,
            Prompt::AcceptMilk => Tag::HasMilk,
            Prompt::SelectGift => Tag::HasGift,
        }
    }

    pub open spec fn spec_text(self) -> Seq<char> {
        match self {
            Prompt::TakeMail => "e: take mail"@,
            Prompt::AcceptCarrot => "e: accept carrot"@,
            Prompt::TakeBirdFood => "e: take bird food"@,
            Prompt::FeedBird => "e: feed bird"@,
            Prompt::GiveGift => "e: give gift"@,
            Prompt::GiveMilk => "e: give milk"@,
            Prompt::AcceptMilk => "e: accept milk"@,
            Prompt::SelectGift => "e: select this gift"@,
        }
    }

    /// The prompt's caption.
    pub fn text(&self) -> (r: &'static str)
        ensures
            r@ == self.spec_text(),
    {
        match self {
            Prompt::TakeMail => "e: take mail",
            Prompt::AcceptCarrot => "e: accept carrot",
            Prompt::TakeBirdFood => "e: take bird food",
            Prompt::FeedBird => "e: feed bird",
            Prompt::GiveGift => "e: give gift",
            Prompt::GiveMilk => "e: give milk",
            Prompt::AcceptMilk => "e: accept milk",
            Prompt::SelectGift => "e: select this gift",
        }
    }
}

/// Flags that a shown prompt grants this frame.
pub open spec fn prompt_grants(p: Option<Prompt>, accept: bool) -> Seq<Tag> {
    match p {
        Some(q) => if accept {
            seq![q.spec_grants()]
        } else {
            Seq::empty()
        },
        None => Seq::empty(),
    }
}

/// A verdict that shows the entity, or not, and changes nothing.
pub open spec fn plain(visible: bool, anim: u32) -> Verdict {
    Verdict { visible, pushed: Seq::empty(), anim, prompt: None }
}

/// A verdict that shows a prompt while the entity is shown.
pub open spec fn prompting(visible: bool, anim: u32, p: Option<Prompt>, accept: bool) -> Verdict {
    Verdict { visible, pushed: prompt_grants(p, accept), anim, prompt: p }
}

/// The condition of an entity with behavior `b` and animation time `anim`,
/// against the flags `t`; `near` is whether the player is within the talking
/// radius, `close` within the bird's reach, `accept` whether the accept key
/// went down this frame.
pub open spec fn guard(b: Behavior, anim: u32, t: Seq<Tag>, near: bool, close: bool, accept: bool) -> Verdict {
    match b {
        Behavior::MailMarker => plain(
            (!t.contains(Tag::HasMail) || t.contains(Tag::HenryHasOfferedCarrot) || t.contains(
                Tag::MailHasBeenSent,
            )) && !near,
            anim,
        ),
        Behavior::MailRequest => if !t.contains(Tag::HasMail) && near {
            prompting(true, anim, Some(Prompt::TakeMail), accept)
        } else {
            plain(false, anim)
        },
        Behavior::MailThanks => plain(
            near && t.contains(Tag::HasMail) && !t.contains(Tag::MailHasBeenSent),
            anim,
        ),
        Behavior::HenryReward => {
            let first: Seq<Tag> = if !t.contains(Tag::HasReturnedToHenry) {
                seq![Tag::HasReturnedToHenry]
            } else {
                Seq::empty()
            };
            let offers = anim >= REWARD_OFFER_TIME;
            let pushed = if offers {
                first.push(Tag::HenryHasOfferedCarrot)
            } else {
                first
            };
            let anim2 = if offers {
                REWARD_REWIND_TIME
            } else {
                anim
            };
            Verdict {
                visible: (near || anim2 > 0) && (t + pushed).contains(Tag::MailHasBeenSent),
                pushed,
                anim: anim2,
                prompt: None,
            }
        },
        Behavior::CarrotOffer => if t.contains(Tag::HenryHasOfferedCarrot) && near {
            prompting(true, anim, Some(Prompt::AcceptCarrot), accept)
        } else {
            plain(false, anim)
        },
        Behavior::TonyMarker => plain(
            !near && (!t.contains(Tag::HasBirdFood) || (t.contains(Tag::HasFedBird) && !t.contains(
                Tag::TonyHasOpenedDoor,
            )) || (t.contains(Tag::HasBeeninGiftStore) && !t.contains(Tag::HasMilk))),
            anim,
        ),
        Behavior::BirdFoodRequest => if !t.contains(Tag::HasBirdFood) && near {
            prompting(true, anim, Some(Prompt::TakeBirdFood), accept)
        } else {
            plain(false, anim)
        },
        Behavior::BirdFoodReminder => plain(
            t.contains(Tag::HasBirdFood) && !t.contains(Tag::HasFedBird) && near,
            anim,
        ),
        Behavior::TonyThanks => if !t.contains(Tag::HasMilk) && t.contains(Tag::HasFedBird) && near {
            Verdict {
                visible: true,
                pushed: seq![Tag::TonyHasOpenedDoor],
                anim,
                prompt: None,
            }
        } else {
            plain(false, anim)
        },
        Behavior::Bird => plain(!t.contains(Tag::HasFedBird), anim),
        Behavior::BirdFeeder => if t.contains(Tag::HasBirdFood) && !t.contains(Tag::HasFedBird)
            && close {
            prompting(false, anim, Some(Prompt::FeedBird), accept)
        } else {
            plain(false, anim)
        },
        Behavior::BirdEating => plain(t.contains(Tag::HasFedBird), anim),
        Behavior::BirthdayMarker => plain(
            t.contains(Tag::TonyHasOpenedDoor) && !t.contains(Tag::HasGivenGift) && !near,
            anim,
        ),
        Behavior::BirthdayRequest => if t.contains(Tag::HasMail) && !t.contains(Tag::HasGivenGift)
            && near {
            if t.contains(Tag::HasGift) {
                prompting(true, anim, Some(Prompt::GiveGift), accept)
            } else {
                plain(true, anim)
            }
        } else {
            plain(false, anim)
        },
        Behavior::BirthdayCelebration => {
            let pushed: Seq<Tag> = if anim > BIRTHDAY_SEND_TIME {
                seq![Tag::MailHasBeenSent]
            } else {
                Seq::empty()
            };
            Verdict {
                visible: (t + pushed).contains(Tag::HasGivenGift) && !(t + pushed).contains(
                    Tag::MailHasBeenSent,
                ),
                pushed,
                anim,
                prompt: None,
            }
        },
        Behavior::BirthdayThanks => plain(t.contains(Tag::MailHasBeenSent) && near, anim),
        Behavior::GiftShopMarker => plain(!t.contains(Tag::HasGift) && !near, anim),
        Behavior::GiftShopRequest => if !t.contains(Tag::HasMilk) && near {
            Verdict {
                visible: true,
                pushed: seq![Tag::HasBeeninGiftStore],
                anim,
                prompt: None,
            }
        } else {
            plain(false, anim)
        },
        Behavior::GiftShopThanks => plain(t.contains(Tag::HasGift) && near, anim),
        Behavior::MilkHandover => if t.contains(Tag::HasMilk) && !t.contains(Tag::HasGift) && near {
            prompting(false, anim, Some(Prompt::GiveMilk), accept)
        } else {
            plain(false, anim)
        },
        Behavior::MilkOffer => if t.contains(Tag::HasBeeninGiftStore) && !t.contains(Tag::HasMilk)
            && near {
            prompting(true, anim, Some(Prompt::AcceptMilk), accept)
        } else {
            plain(false, anim)
        },
    }
}

/// Whether a player at `(px, py)` (hundredths of a pixel) is within `r`
/// pixels of the pixel position `(ex, ey)`.
pub open spec fn within(ex: int, ey: int, px: int, py: int, r: int) -> bool {
    (ex * 100 - px) * (ex * 100 - px) + (ey * 100 - py) * (ey * 100 - py) <= (r * 100) * (r * 100)
}

/// Whether the flags hold `t`.
pub fn has_tag(tags: &Vec<Tag>, t: Tag) -> (r: bool)
    ensures
        r == tags@.contains(t),
{
    let mut i: usize = 0;
    while i < tags.len()
        invariant
            0 <= i <= tags@.len(),
            forall|j: int| 0 <= j < i ==> tags@[j] != t,
        decreases tags@.len() - i,
    {
        if tags[i] == t {
            return true;
        }
        i = i + 1;
    }
    false
}

proof fn lemma_square_bound(a: int, b: int)
    requires
        -b <= a <= b,
    ensures
        0 <= a * a <= b * b,
{
    assert(0 <= a * a) by (nonlinear_arith);
    if a >= 0 {
        assert(a * a <= a * b) by (nonlinear_arith)
            requires
                0 <= a <= b,
        ;
        assert(a * b <= b * b) by (nonlinear_arith)
            requires
                0 <= a <= b,
        ;
    } else {
        assert((-a) * (-a) <= (-a) * b) by (nonlinear_arith)
            requires
                0 <= -a <= b,
        ;
        assert((-a) * b <= b * b) by (nonlinear_arith)
            requires
                0 <= -a <= b,
        ;
        assert(a * a == (-a) * (-a)) by (nonlinear_arith);
    }
}

/// Exact distance test in integers, see `within`.
pub fn is_within(ex: i32, ey: i32, px: i64, py: i64, r: i64) -> (res: bool)
    requires
        abs(px as int) <= LIMIT,
        abs(py as int) <= LIMIT,
        0 <= r <= 1000,
    ensures
        res == within(ex as int, ey as int, px as int, py as int, r as int),
{
    let dx: i128 = ex as i128 * 100 - px as i128;
    let dy: i128 = ey as i128 * 100 - py as i128;
    let rr: i128 = r as i128 * 100;
    proof {
        lemma_square_bound(dx as int, 0x200_0000_0000);
        lemma_square_bound(dy as int, 0x200_0000_0000);
        assert(0x200_0000_0000int * 0x200_0000_0000int == 0x4_0000_0000_0000_0000_0000int);
        assert(dx * dx <= 0x4_0000_0000_0000_0000_0000int);
        assert(dy * dy <= 0x4_0000_0000_0000_0000_0000int);
        assert(rr * rr <= 0x4_0000_0000_0000_0000_0000int) by (nonlinear_arith)
            requires
                0 <= rr <= 100000,
        ;
    }
    assert(rr * rr <= 10_000_000_000) by (nonlinear_arith)
        requires
            0 <= rr <= 100000,
    ;
    dx * dx + dy * dy <= rr * rr
}

pub proof fn lemma_contains_concat(a: Seq<Tag>, b: Seq<Tag>, x: Tag)
    ensures
        (a + b).contains(x) == (a.contains(x) || b.contains(x)),
{
    if a.contains(x) {
        let i = choose|i: int| 0 <= i < a.len() && a[i] == x;
        assert((a + b)[i] == x);
    }
    if b.contains(x) {
        let i = choose|i: int| 0 <= i < b.len() && b[i] == x;
        assert((a + b)[a.len() + i] == x);
    }
    if (a + b).contains(x) {
        let i = choose|i: int| 0 <= i < (a + b).len() && (a + b)[i] == x;
        if i < a.len() {
            assert(a[i] == x);
        } else {
            assert(b[i - a.len()] == x);
        }
    }
}

/// One evaluation of an entity's condition, see `guard`.
pub fn decide(b: Behavior, anim: u32, tags: &Vec<Tag>, near: bool, close: bool, accept: bool) -> (r: (
    bool,
    Vec<Tag>,
    u32,
    Option<Prompt>,
))
    ensures
        r.0 == guard(b, anim, tags@, near, close, accept).visible,
        r.1@ == guard(b, anim, tags@, near, close, accept).pushed,
        r.2 == guard(b, anim, tags@, near, close, accept).anim,
        r.3 == guard(b, anim, tags@, near, close, accept).prompt,
{
    let mut pushed: Vec<Tag> = Vec::new();
    let mut prompt: Option<Prompt> = None;
    let mut anim2 = anim;
    let visible = match b {
        Behavior::MailMarker => (!has_tag(tags, Tag::HasMail) || has_tag(
            tags,
            Tag::HenryHasOfferedCarrot,
        ) || has_tag(tags, Tag::MailHasBeenSent)) && !near,
        Behavior::MailRequest => if !has_tag(tags, Tag::HasMail) && near {
            prompt = Some(Prompt::TakeMail);
            true
        } else {
            false
        },
        Behavior::MailThanks => near && has_tag(tags, Tag::HasMail) && !has_tag(
            tags,
            Tag::MailHasBeenSent,
        ),
        Behavior::HenryReward => {
            if !has_tag(tags, Tag::HasReturnedToHenry) {
                pushed.push(Tag::HasReturnedToHenry);
            }
            if anim >= REWARD_OFFER_TIME {
                pushed.push(Tag::HenryHasOfferedCarrot);
                anim2 = REWARD_REWIND_TIME;
            }
            proof {
                lemma_contains_concat(tags@, pushed@, Tag::MailHasBeenSent);
                assert(!pushed@.contains(Tag::MailHasBeenSent));
            }
            (near || anim2 > 0) && has_tag(tags, Tag::MailHasBeenSent)
        },
        Behavior::CarrotOffer => if has_tag(tags, Tag::HenryHasOfferedCarrot) && near {
            prompt = Some(Prompt::AcceptCarrot);
            true
        } else {
            false
        },
        Behavior::TonyMarker => !near && (!has_tag(tags, Tag::HasBirdFood) || (has_tag(
            tags,
            Tag::HasFedBird,
        ) && !has_tag(tags, Tag::TonyHasOpenedDoor)) || (has_tag(tags, Tag::HasBeeninGiftStore)
            && !has_tag(tags, Tag::HasMilk))),
        Behavior::BirdFoodRequest => if !has_tag(tags, Tag::HasBirdFood) && near {
            prompt = Some(Prompt::TakeBirdFood);
            true
        } else {
            false
        },
        Behavior::BirdFoodReminder => has_tag(tags, Tag::HasBirdFood) && !has_tag(
            tags,
            Tag::HasFedBird,
        ) && near,
        Behavior::TonyThanks => if !has_tag(tags, Tag::HasMilk) && has_tag(tags, Tag::HasFedBird)
            && near {
            pushed.push(Tag::TonyHasOpenedDoor);
            true
        } else {
            false
        },
        Behavior::Bird => !has_tag(tags, Tag::HasFedBird),
        Behavior::BirdFeeder => {
            if has_tag(tags, Tag::HasBirdFood) && !has_tag(tags, Tag::HasFedBird) && close {
                prompt = Some(Prompt::FeedBird);
            }
            false
        },
        Behavior::BirdEating => has_tag(tags, Tag::HasFedBird),
        Behavior::BirthdayMarker => has_tag(tags, Tag::TonyHasOpenedDoor) && !has_tag(
            tags,
            Tag::HasGivenGift,
        ) && !near,
        Behavior::BirthdayRequest => if has_tag(tags, Tag::HasMail) && !has_tag(
            tags,
            Tag::HasGivenGift,
        ) && near {
            if has_tag(tags, Tag::HasGift) {
                prompt = Some(Prompt::GiveGift);
            }
            true
        } else {
            false
        },
        Behavior::BirthdayCelebration => {
            if anim > BIRTHDAY_SEND_TIME {
                pushed.push(Tag::MailHasBeenSent);
            }
            proof {
                lemma_contains_concat(tags@, pushed@, Tag::MailHasBeenSent);
                lemma_contains_concat(tags@, pushed@, Tag::HasGivenGift);
                assert(!pushed@.contains(Tag::HasGivenGift));
                if pushed@.len() > 0 {
                    assert(pushed@[0] == Tag::MailHasBeenSent);
                }
            }
            has_tag(tags, Tag::HasGivenGift) && !(anim > BIRTHDAY_SEND_TIME) && !has_tag(
                tags,
                Tag::MailHasBeenSent,
            )
        },
        Behavior::BirthdayThanks => has_tag(tags, Tag::MailHasBeenSent) && near,
        Behavior::GiftShopMarker => !has_tag(tags, Tag::HasGift) && !near,
        Behavior::GiftShopRequest => if !has_tag(tags, Tag::HasMilk) && near {
            pushed.push(Tag::HasBeeninGiftStore);
            true
        } else {
            false
        },
        Behavior::GiftShopThanks => has_tag(tags, Tag::HasGift) && near,
        Behavior::MilkHandover => {
            if has_tag(tags, Tag::HasMilk) && !has_tag(tags, Tag::HasGift) && near {
                prompt = Some(Prompt::GiveMilk);
            }
            false
        },
        Behavior::MilkOffer => if has_tag(tags, Tag::HasBeeninGiftStore) && !has_tag(
            tags,
            Tag::HasMilk,
        ) && near {
            prompt = Some(Prompt::AcceptMilk);
            true
        } else {
            false
        },
    };
    if accept {
        if let Some(p) = prompt {
            pushed.push(p.grants());
        }
    }
    proof {
        assert(pushed@ =~= guard(b, anim, tags@, near, close, accept).pushed);
    }
    (visible, pushed, anim2, prompt)
}

/// The entities of a level, in the order in which their conditions run.
pub open spec fn roster() -> Seq<Behavior> {
    seq![
            Behavior::MailMarker,
            Behavior::MailRequest,
            Behavior::MailThanks,
            Behavior::HenryReward,
            Behavior::CarrotOffer,
            Behavior::TonyMarker,
            Behavior::BirdFoodRequest,
            Behavior::BirdFoodReminder,
            Behavior::TonyThanks,
            Behavior::Bird,
            Behavior::BirdFeeder,
            Behavior::BirdEating,
            Behavior::BirthdayMarker,
            Behavior::BirthdayRequest,
            Behavior::BirthdayCelebration,
            Behavior::BirthdayThanks,
            Behavior::GiftShopMarker,
            Behavior::GiftShopRequest,
            Behavior::GiftShopThanks,
            Behavior::MilkHandover,
            Behavior::MilkOffer,
        ]
}

impl Behavior {
    /// Marker of the interactable layer that places the entity.
    pub open spec fn spec_marker(self) -> i16 {
        match self {
            Behavior::MailMarker => 64,
            Behavior::MailRequest => 64,
            Behavior::MailThanks => 64,
            Behavior::HenryReward => 64,
            Behavior::CarrotOffer => 64,
            Behavior::TonyMarker => 128,
            Behavior::BirdFoodRequest => 128,
            Behavior::BirdFoodReminder => 128,
            Behavior::TonyThanks => 128,
            Behavior::Bird => 612,
            Behavior::BirdFeeder => 612,
            Behavior::BirdEating => 612,
            Behavior::BirthdayMarker => 288,
            Behavior::BirthdayRequest => 288,
            Behavior::BirthdayCelebration => 288,
            Behavior::BirthdayThanks => 288,
            Behavior::GiftShopMarker => 384,
            Behavior::GiftShopRequest => 384,
            Behavior::GiftShopThanks => 384,
            Behavior::MilkHandover => 384,
            Behavior::MilkOffer => 128,
        }
    }

    /// Offset in pixels from the marker's position.
    pub open spec fn spec_offset(self) -> (i32, i32) {
        match self {
            Behavior::MailMarker => (0i32, 0i32),
            Behavior::MailRequest => (0i32, 0i32),
            Behavior::MailThanks => (0i32, 0i32),
            Behavior::HenryReward => (-4i32, 12i32),
            Behavior::CarrotOffer => (0i32, 0i32),
            Behavior::TonyMarker => (0i32, 0i32),
            Behavior::BirdFoodRequest => (0i32, 0i32),
            Behavior::BirdFoodReminder => (0i32, 0i32),
            Behavior::TonyThanks => (0i32, 0i32),
            Behavior::Bird => (0i32, 0i32),
            Behavior::BirdFeeder => (0i32, 0i32),
            Behavior::BirdEating => (0i32, 0i32),
            Behavior::BirthdayMarker => (0i32, 0i32),
            Behavior::BirthdayRequest => (0i32, 0i32),
            Behavior::BirthdayCelebration => (0i32, 20i32),
            Behavior::BirthdayThanks => (0i32, 0i32),
            Behavior::GiftShopMarker => (0i32, 0i32),
            Behavior::GiftShopRequest => (0i32, 0i32),
            Behavior::GiftShopThanks => (0i32, 0i32),
            Behavior::MilkHandover => (0i32, 0i32),
            Behavior::MilkOffer => (0i32, 0i32),
        }
    }

    /// Animation the entity shows, if it shows one.
    pub open spec fn spec_sprite(self) -> Option<Sprite> {
        match self {
            Behavior::MailMarker => Some(Sprite::PointOfInterest),
            Behavior::MailRequest => None,
            Behavior::MailThanks => None,
            Behavior::HenryReward => Some(Sprite::HenryGetReward),
            Behavior::CarrotOffer => None,
            Behavior::TonyMarker => Some(Sprite::PointOfInterest),
            Behavior::BirdFoodRequest => None,
            Behavior::BirdFoodReminder => None,
            Behavior::TonyThanks => None,
            Behavior::Bird => Some(Sprite::Bird),
            Behavior::BirdFeeder => None,
            Behavior::BirdEating => Some(Sprite::BirdEating),
            Behavior::BirthdayMarker => Some(Sprite::PointOfInterest),
            Behavior::BirthdayRequest => None,
            Behavior::BirthdayCelebration => Some(Sprite::BirthdayHappy),
            Behavior::BirthdayThanks => None,
            Behavior::GiftShopMarker => Some(Sprite::PointOfInterest),
            Behavior::GiftShopRequest => None,
            Behavior::GiftShopThanks => None,
            Behavior::MilkHandover => None,
            Behavior::MilkOffer => None,
        }
    }

    /// Words of the entity's text bubble, if it shows one.
    pub open spec fn spec_speech(self) -> Option<Seq<char>> {
        match self {
            Behavior::MailMarker => None,
            Behavior::MailRequest => Some("hi!\n                please go to the town\n                and post my mail"@),
            Behavior::MailThanks => Some("thanks! return when\n                you have posted it"@),
            Behavior::HenryReward => None,
            Behavior::CarrotOffer => Some("take this carrot\n                as a reward!"@),
            Behavior::TonyMarker => None,
            Behavior::BirdFoodRequest => Some("hi!\n                feed the bird on my roof\n                and i will let you pass \n                through here"@),
            Behavior::BirdFoodReminder => Some("return when youve fed\n                the bird on my roof"@),
            Behavior::TonyThanks => Some("thanks!"@),
            Behavior::Bird => None,
            Behavior::BirdFeeder => None,
            Behavior::BirdEating => None,
            Behavior::BirthdayMarker => None,
            Behavior::BirthdayRequest => Some("today is my birthday.\n                want to send mail?\n                get me a gift!"@),
            Behavior::BirthdayCelebration => None,
            Behavior::BirthdayThanks => Some("thanks for the gift!\n                ive sent your mail now"@),
            Behavior::GiftShopMarker => None,
            Behavior::GiftShopRequest => Some("buy me some milk from\n                tonys grocery and i will\n                give you a gift to give"@),
            Behavior::GiftShopThanks => Some("pleasure doin business\n                with you!"@),
            Behavior::MilkHandover => None,
            Behavior::MilkOffer => Some("here! have some milk\n                as thanks for feeding\n                my bird"@),
        }
    }

    pub fn marker(&self) -> (r: i16)
        ensures
            r == self.spec_marker(),
    {
        match self {
            Behavior::MailMarker => 64,
            Behavior::MailRequest => 64,
            Behavior::MailThanks => 64,
            Behavior::HenryReward => 64,
            Behavior::CarrotOffer => 64,
            Behavior::TonyMarker => 128,
            Behavior::BirdFoodRequest => 128,
            Behavior::BirdFoodReminder => 128,
            Behavior::TonyThanks => 128,
            Behavior::Bird => 612,
            Behavior::BirdFeeder => 612,
            Behavior::BirdEating => 612,
            Behavior::BirthdayMarker => 288,
            Behavior::BirthdayRequest => 288,
            Behavior::BirthdayCelebration => 288,
            Behavior::BirthdayThanks => 288,
            Behavior::GiftShopMarker => 384,
            Behavior::GiftShopRequest => 384,
            Behavior::GiftShopThanks => 384,
            Behavior::MilkHandover => 384,
            Behavior::MilkOffer => 128,
        }
    }

    pub fn offset(&self) -> (r: (i32, i32))
        ensures
            r == self.spec_offset(),
    {
        match self {
            Behavior::MailMarker => (0i32, 0i32),
            Behavior::MailRequest => (0i32, 0i32),
            Behavior::MailThanks => (0i32, 0i32),
            Behavior::HenryReward => (-4i32, 12i32),
            Behavior::CarrotOffer => (0i32, 0i32),
            Behavior::TonyMarker => (0i32, 0i32),
            Behavior::BirdFoodRequest => (0i32, 0i32),
            Behavior::BirdFoodReminder => (0i32, 0i32),
            Behavior::TonyThanks => (0i32, 0i32),
            Behavior::Bird => (0i32, 0i32),
            Behavior::BirdFeeder => (0i32, 0i32),
            Behavior::BirdEating => (0i32, 0i32),
            Behavior::BirthdayMarker => (0i32, 0i32),
            Behavior::BirthdayRequest => (0i32, 0i32),
            Behavior::BirthdayCelebration => (0i32, 20i32),
            Behavior::BirthdayThanks => (0i32, 0i32),
            Behavior::GiftShopMarker => (0i32, 0i32),
            Behavior::GiftShopRequest => (0i32, 0i32),
            Behavior::GiftShopThanks => (0i32, 0i32),
            Behavior::MilkHandover => (0i32, 0i32),
            Behavior::MilkOffer => (0i32, 0i32),
        }
    }

    /// What the entity shows while its condition holds.
    pub fn draw_type(&self) -> (r: DrawType)
        ensures
            r matches DrawType::Animation(s) ==> self.spec_sprite() == Some(s),
            self.spec_sprite() matches Some(s) ==> r == DrawType::Animation(s),
            r matches DrawType::TextBubble(t) ==> self.spec_speech() == Some(t@),
            self.spec_speech() is Some ==> r is TextBubble,
            r is Nothing ==> self.spec_sprite() is None && self.spec_speech() is None,
    {
        match self {
            Behavior::MailMarker => DrawType::Animation(Sprite::PointOfInterest),
            Behavior::MailRequest => DrawType::TextBubble("hi!\n                please go to the town\n                and post my mail".to_owned()),
            Behavior::MailThanks => DrawType::TextBubble("thanks! return when\n                you have posted it".to_owned()),
            Behavior::HenryReward => DrawType::Animation(Sprite::HenryGetReward),
            Behavior::CarrotOffer => DrawType::TextBubble("take this carrot\n                as a reward!".to_owned()),
            Behavior::TonyMarker => DrawType::Animation(Sprite::PointOfInterest),
            Behavior::BirdFoodRequest => DrawType::TextBubble("hi!\n                feed the bird on my roof\n                and i will let you pass \n                through here".to_owned()),
            Behavior::BirdFoodReminder => DrawType::TextBubble("return when youve fed\n                the bird on my roof".to_owned()),
            Behavior::TonyThanks => DrawType::TextBubble("thanks!".to_owned()),
            Behavior::Bird => DrawType::Animation(Sprite::Bird),
            Behavior::BirdFeeder => DrawType::Nothing,
            Behavior::BirdEating => DrawType::Animation(Sprite::BirdEating),
            Behavior::BirthdayMarker => DrawType::Animation(Sprite::PointOfInterest),
            Behavior::BirthdayRequest => DrawType::TextBubble("today is my birthday.\n                want to send mail?\n                get me a gift!".to_owned()),
            Behavior::BirthdayCelebration => DrawType::Animation(Sprite::BirthdayHappy),
            Behavior::BirthdayThanks => DrawType::TextBubble("thanks for the gift!\n                ive sent your mail now".to_owned()),
            Behavior::GiftShopMarker => DrawType::Animation(Sprite::PointOfInterest),
            Behavior::GiftShopRequest => DrawType::TextBubble("buy me some milk from\n                tonys grocery and i will\n                give you a gift to give".to_owned()),
            Behavior::GiftShopThanks => DrawType::TextBubble("pleasure doin business\n                with you!".to_owned()),
            Behavior::MilkHandover => DrawType::Nothing,
            Behavior::MilkOffer => DrawType::TextBubble("here! have some milk\n                as thanks for feeding\n                my bird".to_owned()),
        }
    }
}

/// The verdict of entity `e` for a player at `(px, py)` holding flags `t`.
pub open spec fn verdict_of(e: Entity, t: Seq<Tag>, px: int, py: int, accept: bool) -> Verdict {
    guard(
        e.behavior,
        e.anim_frame,
        t,
        within(e.x as int, e.y as int, px, py, TALK_RADIUS as int),
        within(e.x as int, e.y as int, px, py, REACH_RADIUS as int),
        accept,
    )
}

/// Animation time once the condition has run: it advances only while the
/// entity is shown.
pub open spec fn anim_shown(v: Verdict) -> u32 {
    if v.visible {
        anim_after(v.anim)
    } else {
        v.anim
    }
}

/// The entity once its condition has run: only its animation time changes.
pub open spec fn entity_after(e: Entity, v: Verdict) -> Entity {
    Entity { anim_frame: anim_shown(v), ..e }
}

/// Flags after the conditions of the first `n` entities have run, in order,
/// each one seeing what the ones before it granted.
pub open spec fn flags_after(es: Seq<Entity>, t: Seq<Tag>, px: int, py: int, accept: bool, n: int) -> Seq<Tag>
    decreases n,
{
    if n <= 0 {
        t
    } else {
        let prev = flags_after(es, t, px, py, accept, n - 1);
        prev + verdict_of(es[n - 1], prev, px, py, accept).pushed
    }
}

/// The player is the same but for its flags.
pub open spec fn same_but_flags(a: Player, b: Player) -> bool {
    a.x == b.x && a.y == b.y && a.vx == b.vx && a.vy == b.vy && a.anim_frame == b.anim_frame
        && a.facing_right == b.facing_right && a.on_ground == b.on_ground && a.jump_frames
        == b.jump_frames
}

impl Entity {
    /// Runs the entity's condition once: applies the flags it grants to the
    /// player, advances its animation while shown, and reports whether it is
    /// shown and which prompt it put up.
    pub fn draw(&mut self, player: &mut Player, accept: bool) -> (r: Shown)
        requires
            old(player).in_range(),
        ensures
            ({
                let v = verdict_of(*old(self), old(player).tags@, old(player).x as int, old(player).y as int, accept);
                &&& final(player).tags@ == old(player).tags@ + v.pushed
                &&& *final(self) == entity_after(*old(self), v)
                &&& r == Shown { visible: v.visible, prompt: v.prompt, time: v.anim }
            }),
            same_but_flags(*final(player), *old(player)),
    {
        let near = is_within(self.x, self.y, player.x, player.y, TALK_RADIUS);
        let close = is_within(self.x, self.y, player.x, player.y, REACH_RADIUS);
        let (visible, pushed, anim, prompt) = decide(self.behavior, self.anim_frame, &player.tags, near, close, accept);
        let ghost t0 = player.tags@;
        let mut i: usize = 0;
        while i < pushed.len()
            invariant
                0 <= i <= pushed@.len(),
                player.tags@ == t0 + pushed@.subrange(0, i as int),
                same_but_flags(*player, *old(player)),
            decreases pushed@.len() - i,
        {
            player.tags.push(pushed[i]);
            i = i + 1;
            assert(t0 + pushed@.subrange(0, i as int) =~= (t0 + pushed@.subrange(0, i - 1)).push(pushed@[i - 1]));
        }
        assert(pushed@.subrange(0, pushed@.len() as int) =~= pushed@);
        if visible {
            if anim > u32::MAX - ANIM_STEP {
                self.anim_frame = anim - (u32::MAX - ANIM_STEP + 1);
            } else {
                self.anim_frame = anim + ANIM_STEP;
            }
        } else {
            self.anim_frame = anim;
        }
        Shown { visible, prompt, time: anim }
    }
}

/// Runs every entity's condition once, in list order, against the player;
/// a later entity sees the flags that earlier ones granted in the same pass.
pub fn draw_entities(entities: &mut Vec<Entity>, player: &mut Player, accept: bool) -> (r: Vec<Shown>)
    requires
        old(player).in_range(),
    ensures
        ({
            let es = old(entities)@;
            let t = old(player).tags@;
            let px = old(player).x as int;
            let py = old(player).y as int;
            &&& final(player).tags@ == flags_after(es, t, px, py, accept, es.len() as int)
            &&& final(entities)@.len() == es.len()
            &&& r@.len() == es.len()
            &&& forall|i: int| 0 <= i < es.len() ==> {
                let v = #[trigger] verdict_of(es[i], flags_after(es, t, px, py, accept, i), px, py, accept);
                &&& final(entities)@[i] == entity_after(es[i], v)
                &&& r@[i] == Shown { visible: v.visible, prompt: v.prompt, time: v.anim }
            }
        }),
        same_but_flags(*final(player), *old(player)),
{
    let ghost es = entities@;
    let ghost t = player.tags@;
    let ghost px = player.x as int;
    let ghost py = player.y as int;
    let mut shown: Vec<Shown> = Vec::new();
    let mut i: usize = 0;
    while i < entities.len()
        invariant
            0 <= i <= es.len(),
            entities@.len() == es.len(),
            shown@.len() == i,
            px == old(player).x as int,
            py == old(player).y as int,
            player.tags@ == flags_after(es, t, px, py, accept, i as int),
            same_but_flags(*player, *old(player)),
            player.in_range(),
            forall|j: int| i <= j < es.len() ==> entities@[j] == es[j],
            forall|j: int| 0 <= j < i ==> {
                let v = #[trigger] verdict_of(es[j], flags_after(es, t, px, py, accept, j), px, py, accept);
                &&& entities@[j] == entity_after(es[j], v)
                &&& shown@[j] == Shown { visible: v.visible, prompt: v.prompt, time: v.anim }
            },
        decreases es.len() - i,
    {
        let s = entities[i].draw(player, accept);
        shown.push(s);
        i = i + 1;
    }
    shown
}

/// The entities of a level, placed at the markers of the interactable layer;
/// nothing when one of the markers they need is missing.
pub fn get_entities(world: &World) -> (r: Option<Vec<Entity>>)
    requires
        layer_wf(world.interactable@),
    ensures
        r is None <==> exists|i: int|
            0 <= i < roster().len() && spawn_of(world.interactable@, #[trigger] roster()[i].spec_marker() as int) is None,
        r matches Some(v) ==> {
            &&& v@.len() == roster().len()
            &&& forall|i: int| 0 <= i < v@.len() ==> {
                let e = #[trigger] v@[i];
                let b = roster()[i];
                &&& e.behavior == b
                &&& e.anim_frame == 0
                &&& spawn_of(world.interactable@, b.spec_marker() as int) == Some(
                    (e.x - b.spec_offset().0, e.y - b.spec_offset().1),
                )
                &&& b.spec_sprite() matches Some(sp) ==> e.draw_type == DrawType::Animation(sp)
                &&& b.spec_speech() matches Some(w) ==> (e.draw_type matches DrawType::TextBubble(t) && t@ == w)
            }
        },
{
    let order: Vec<Behavior> = vec![
        Behavior::MailMarker,
        Behavior::MailRequest,
        Behavior::MailThanks,
        Behavior::HenryReward,
        Behavior::CarrotOffer,
        Behavior::TonyMarker,
        Behavior::BirdFoodRequest,
        Behavior::BirdFoodReminder,
        Behavior::TonyThanks,
        Behavior::Bird,
        Behavior::BirdFeeder,
        Behavior::BirdEating,
        Behavior::BirthdayMarker,
        Behavior::BirthdayRequest,
        Behavior::BirthdayCelebration,
        Behavior::BirthdayThanks,
        Behavior::GiftShopMarker,
        Behavior::GiftShopRequest,
        Behavior::GiftShopThanks,
        Behavior::MilkHandover,
        Behavior::MilkOffer,
    ];
    assert(order@ =~= roster());
    let mut out: Vec<Entity> = Vec::new();
    let mut i: usize = 0;
    while i < order.len()
        invariant
            0 <= i <= order@.len(),
            order@ == roster(),
            layer_wf(world.interactable@),
            out@.len() == i,
            forall|j: int| 0 <= j < i ==> spawn_of(world.interactable@, #[trigger] roster()[j].spec_marker() as int) is Some,
            forall|j: int| 0 <= j < i ==> {
                let e = #[trigger] out@[j];
                let b = roster()[j];
                &&& e.behavior == b
                &&& e.anim_frame == 0
                &&& spawn_of(world.interactable@, b.spec_marker() as int) == Some(
                    (e.x - b.spec_offset().0, e.y - b.spec_offset().1),
                )
                &&& b.spec_sprite() matches Some(sp) ==> e.draw_type == DrawType::Animation(sp)
                &&& b.spec_speech() matches Some(w) ==> (e.draw_type matches DrawType::TextBubble(t) && t@ == w)
            },
        decreases order@.len() - i,
    {
        let b = order[i];
        let (dx, dy) = b.offset();
        match world.get_interactable_spawn(b.marker()) {
            None => {
                assert(spawn_of(world.interactable@, roster()[i as int].spec_marker() as int) is None);
                return None;
            },
            Some((sx, sy)) => {
                out.push(Entity { x: sx + dx, y: sy + dy, behavior: b, draw_type: b.draw_type(), anim_frame: 0 });
            },
        }
        i = i + 1;
    }
    Some(out)
}

/// Two flag lists hold the same flags, whatever their order or repeats.
pub open spec fn same_flags(a: Seq<Tag>, b: Seq<Tag>) -> bool {
    forall|x: Tag| #[trigger] a.contains(x) == b.contains(x)
}

proof fn lemma_guard_by_flags(
    b: Behavior,
    anim: u32,
    t1: Seq<Tag>,
    t2: Seq<Tag>,
    near: bool,
    close: bool,
    accept: bool,
)
    requires
        same_flags(t1, t2),
    ensures
        guard(b, anim, t1, near, close, accept) == guard(b, anim, t2, near, close, accept),
{
    let v1 = guard(b, anim, t1, near, close, accept);
    let v2 = guard(b, anim, t2, near, close, accept);
    assert forall|x: Tag| true implies #[trigger] (t1 + v1.pushed).contains(x) == (t2 + v1.pushed).contains(x) by {
        lemma_contains_concat(t1, v1.pushed, x);
        lemma_contains_concat(t2, v1.pushed, x);
    }
    assert(v1.pushed == v2.pushed);
}

proof fn lemma_same_flags_concat(a: Seq<Tag>, b: Seq<Tag>, p: Seq<Tag>)
    requires
        same_flags(a, b),
    ensures
        same_flags(a + p, b + p),
{
    assert forall|x: Tag| #[trigger] (a + p).contains(x) == (b + p).contains(x) by {
        lemma_contains_concat(a, p, x);
        lemma_contains_concat(b, p, x);
    }
}

/// A pass depends on the flags only through which of them are held: started
/// from two flag lists that hold the same flags, in any order and with any
/// repeats, every entity reaches the same verdict (shown or not, the same
/// flags granted, the same prompt, the same animation time) and the pass
/// ends with the same flags held. In particular a pass run twice from one
/// state gives one result.
pub proof fn lemma_pass_depends_on_flag_set(
    es: Seq<Entity>,
    t1: Seq<Tag>,
    t2: Seq<Tag>,
    px: int,
    py: int,
    accept: bool,
    n: int,
)
    requires
        same_flags(t1, t2),
        0 <= n <= es.len(),
    ensures
        same_flags(flags_after(es, t1, px, py, accept, n), flags_after(es, t2, px, py, accept, n)),
        forall|i: int|
            0 <= i < n ==> #[trigger] verdict_of(es[i], flags_after(es, t1, px, py, accept, i), px, py, accept)
                == verdict_of(es[i], flags_after(es, t2, px, py, accept, i), px, py, accept),
    decreases n,
{
    if n > 0 {
        lemma_pass_depends_on_flag_set(es, t1, t2, px, py, accept, n - 1);
        let a = flags_after(es, t1, px, py, accept, n - 1);
        let b = flags_after(es, t2, px, py, accept, n - 1);
        let e = es[n - 1];
        lemma_guard_by_flags(
            e.behavior,
            e.anim_frame,
            a,
            b,
            within(e.x as int, e.y as int, px, py, TALK_RADIUS as int),
            within(e.x as int, e.y as int, px, py, REACH_RADIUS as int),
            accept,
        );
        lemma_same_flags_concat(a, b, verdict_of(e, a, px, py, accept).pushed);
    }
}

/// Flags are never given up: a pass only appends to the flags it started with.
pub proof fn lemma_flags_only_grow(es: Seq<Entity>, t: Seq<Tag>, px: int, py: int, accept: bool, n: int)
    requires
        0 <= n <= es.len(),
    ensures
        flags_after(es, t, px, py, accept, n).len() >= t.len(),
        flags_after(es, t, px, py, accept, n).subrange(0, t.len() as int) == t,
    decreases n,
{
    if n > 0 {
        lemma_flags_only_grow(es, t, px, py, accept, n - 1);
        let prev = flags_after(es, t, px, py, accept, n - 1);
        let p = verdict_of(es[n - 1], prev, px, py, accept).pushed;
        assert((prev + p).subrange(0, t.len() as int) =~= prev.subrange(0, t.len() as int));
    } else {
        assert(t.subrange(0, t.len() as int) =~= t);
    }
}

/// Clears the door's solid tiles once the player holds the flag that opens
/// it; leaves the world as it was otherwise.
pub fn open_door(world: &mut World, player: &Player)
    requires
        old(world).wf(),
        old(world).owns_collision_tile(DOOR_X as int, DOOR_TOP as int),
        old(world).owns_collision_tile(DOOR_X as int, DOOR_BOTTOM as int),
    ensures
        final(world).wf(),
        player.tags@.contains(Tag::TonyHasOpenedDoor) ==> forall|a: int, b: int|
            #[trigger] tile_in(final(world).collision@, a, b) == if a == DOOR_X && (b == DOOR_TOP
                || b == DOOR_BOTTOM) {
                0
            } else {
                tile_in(old(world).collision@, a, b)
            },
        !player.tags@.contains(Tag::TonyHasOpenedDoor) ==> *final(world) == *old(world),
        final(world).one_way_collision == old(world).one_way_collision,
        final(world).interactable == old(world).interactable,
{
    if has_tag(&player.tags, Tag::TonyHasOpenedDoor) {
        let ghost w0 = *world;
        world.set_collision_tile(DOOR_X, DOOR_TOP, 0);
        let ghost w1 = *world;
        world.set_collision_tile(DOOR_X, DOOR_BOTTOM, 0);
        assert forall|a: int, b: int|
            #[trigger] tile_in(world.collision@, a, b) == if a == DOOR_X && (b == DOOR_TOP || b
                == DOOR_BOTTOM) {
                0
            } else {
                tile_in(w0.collision@, a, b)
            } by {
            assert(tile_in(world.collision@, a, b) == if a == DOOR_X && b == DOOR_BOTTOM {
                0
            } else {
                tile_in(w1.collision@, a, b)
            });
            assert(tile_in(w1.collision@, a, b) == if a == DOOR_X && b == DOOR_TOP {
                0
            } else {
                tile_in(w0.collision@, a, b)
            });
        }
    }
}

/// A prompt shown outside any entity: accepting it grants its flag.
pub fn answer_prompt(player: &mut Player, p: Prompt, accept: bool)
    ensures
        final(player).tags@ == old(player).tags@ + prompt_grants(Some(p), accept),
        same_but_flags(*final(player), *old(player)),
{
    if accept {
        player.tags.push(p.grants());
    }
    assert(player.tags@ =~= old(player).tags@ + prompt_grants(Some(p), accept));
}

} // verus!
