use vstd::prelude::*;

use crate::harvest::{views, Collector, Harvest, OnStall, BARREN_PAUSE_MS};

verus! {

/// Most pins taken from one page before moving on to the next.
pub const PAGE_PIN_CAP: usize = 30;

/// How a page visit ended.
#[derive(PartialEq, Eq, Structural, Clone, Copy, Debug)]
pub enum Turn {
    /// All the images asked for are collected.
    Complete,
    /// The relay moves on to the page of a pin found here.
    Onward,
    /// No pin was found here, so there is no page to move on to.
    Stranded,
}

/// What a relay holds.
#[verifier::ext_equal]
pub struct Journey {
    /// How many images are asked for.
    pub goal: nat,
    /// Pause after a round that found something new, in milliseconds.
    pub cooldown: nat,
    /// The image addresses collected so far, page after page.
    pub images: Seq<Seq<char>>,
    /// The page to visit next.
    pub page: Seq<char>,
    /// Whether a page yielded no pin to move on to.
    pub stranded: bool,
}

impl Journey {
    /// What every relay keeps: no more images than asked for.
    pub open spec fn inv(self) -> bool {
        &&& self.images.len() <= self.goal
        &&& self.cooldown + BARREN_PAUSE_MS <= u64::MAX
    }

    /// Whether the relay has ended.
    pub open spec fn done(self) -> bool {
        self.images.len() >= self.goal || self.stranded
    }

    /// How many pins the next page may give: what is still missing, at most a page's cap.
    pub open spec fn quota(self) -> nat {
        let missing: nat = (self.goal - self.images.len()) as nat;
        if missing <= PAGE_PIN_CAP { missing } else { PAGE_PIN_CAP as nat }
    }

    /// The relay after a page gave the pins with the given addresses and images: the
    /// images are added as they are, and the next page is that of the second pin found,
    /// else of the first.
    pub open spec fn after_page(self, links: Seq<Seq<char>>, images: Seq<Seq<char>>) -> (Journey, Turn) {
        let collected = Journey { images: self.images + images, ..self };
        if collected.images.len() >= self.goal {
            (collected, Turn::Complete)
        } else if links.len() >= 2 {
            (Journey { page: links[1], ..collected }, Turn::Onward)
        } else if links.len() == 1 {
            (Journey { page: links[0], ..collected }, Turn::Onward)
        } else {
            (Journey { stranded: true, ..collected }, Turn::Stranded)
        }
    }
}

/// Collects images page after page: from each page it takes up to a page's cap of pins,
/// then goes on to the page of one of them, until enough images are collected. Pins are
/// told apart within a page only, not across pages.
pub struct Relay {
    goal: usize,
    cooldown: u64,
    images: Vec<String>,
    page: String,
    stranded: bool,
}

impl View for Relay {
    type V = Journey;

    closed spec fn view(&self) -> Journey {
        Journey {
            goal: self.goal as nat,
            cooldown: self.cooldown as nat,
            images: views(self.images@),
            page: self.page@,
            stranded: self.stranded,
        }
    }
}

impl Relay {
    pub open spec fn wf(&self) -> bool {
        self@.inv()
    }

    /// A relay that starts at `start` and collects `goal` images.
    pub fn new(start: String, goal: usize, cooldown: u64) -> (r: Relay)
        requires
            cooldown + BARREN_PAUSE_MS <= u64::MAX,
        ensures
            r.wf(),
            r@ == (Journey {
                goal: goal as nat,
                cooldown: cooldown as nat,
                images: Seq::empty(),
                page: start@,
                stranded: false,
            }),
    {
        let r = Relay { goal, cooldown, images: Vec::new(), page: start, stranded: false };
        assert(r@.images =~= Seq::<Seq<char>>::empty());
        r
    }

    /// Whether the relay has ended.
    pub fn is_done(&self) -> (b: bool)
        requires
            self.wf(),
        ensures
            b == self@.done(),
    {
        self.images.len() >= self.goal || self.stranded
    }

    /// How many images are collected.
    pub fn count(&self) -> (n: usize)
        requires
            self.wf(),
        ensures
            n == self@.images.len(),
    {
        self.images.len()
    }

    /// The page to visit next.
    pub fn page(&self) -> (p: &String)
        ensures
            p@ == self@.page,
    {
        &self.page
    }

    /// A collector for the next page: it takes at most the page's quota, and gives the
    /// page up after it stalls.
    pub fn open_page(&self) -> (batch: Collector)
        requires
            self.wf(),
        ensures
            batch.wf(),
            batch@ == Harvest::fresh(self@.quota(), self@.cooldown, OnStall::GiveUp),
            batch@.limit <= PAGE_PIN_CAP,
            self@.images.len() + batch@.limit <= self@.goal,
            self@.goal - self@.images.len() <= PAGE_PIN_CAP ==> self@.images.len() + batch@.limit == self@.goal,
            self@.goal - self@.images.len() > PAGE_PIN_CAP ==> batch@.limit == PAGE_PIN_CAP,
    {
        let missing: usize = self.goal - self.images.len();
        let quota: usize = if missing <= PAGE_PIN_CAP { missing } else { PAGE_PIN_CAP };
        Collector::new(quota, self.cooldown, OnStall::GiveUp)
    }

    /// Takes in what a page gave, and says how the visit ended.
    pub fn close_page(&mut self, batch: Collector) -> (turn: Turn)
        requires
            old(self).wf(),
            batch.wf(),
            batch@.limit <= old(self)@.goal - old(self)@.images.len(),
        ensures
            final(self).wf(),
            (final(self)@, turn) == old(self)@.after_page(batch@.links, batch@.images),
            final(self)@.images == old(self)@.images + batch@.images,
            (turn == Turn::Complete) <==> final(self)@.images.len() >= old(self)@.goal,
            turn != Turn::Complete && batch@.links.len() >= 2 ==> turn == Turn::Onward
                && final(self)@.page == batch@.links[1],
            turn != Turn::Complete && batch@.links.len() == 1 ==> turn == Turn::Onward
                && final(self)@.page == batch@.links[0],
            turn != Turn::Complete && batch@.links.len() == 0 ==> turn == Turn::Stranded
                && final(self)@.done(),
    {
        let ghost taken = batch@;
        let (links, mut images) = batch.into_parts();
        let ghost before = self.images@;
        self.images.append(&mut images);
        assert(views(self.images@) =~= views(before) + taken.images);
        if self.images.len() >= self.goal {
            Turn::Complete
        } else if links.len() >= 2 {
            self.page = links[1].clone();
            assert(views(links@)[1] == links@[1]@);
            Turn::Onward
        } else if links.len() == 1 {
            self.page = links[0].clone();
            assert(views(links@)[0] == links@[0]@);
            Turn::Onward
        } else {
            self.stranded = true;
            Turn::Stranded
        }
    }

    /// The image addresses collected, page after page.
    pub fn into_images(self) -> (images: Vec<String>)
        requires
            self.wf(),
        ensures
            views(images@) == self@.images,
    {
        self.images
    }
}

/// A page may give at most a page's cap of pins, and never more than is still missing:
/// exactly what is missing where that is within the cap, else exactly the cap.
pub proof fn lemma_quota_capped(j: Journey)
    requires
        j.inv(),
    ensures
        j.quota() <= 30,
        j.images.len() + j.quota() <= j.goal,
        j.goal - j.images.len() <= 30 ==> j.images.len() + j.quota() == j.goal,
        j.goal - j.images.len() > 30 ==> j.quota() == 30,
{
}

/// After a page, the images it gave follow the earlier ones unchanged, and nothing else
/// about the request changes.
pub proof fn lemma_page_images_appended(j: Journey, links: Seq<Seq<char>>, images: Seq<Seq<char>>)
    ensures
        j.after_page(links, images).0.images.len() == j.images.len() + images.len(),
        forall|i: int| 0 <= i < j.images.len() ==> #[trigger] j.after_page(links, images).0.images[i] == j.images[i],
        forall|i: int| 0 <= i < images.len() ==> j.after_page(links, images).0.images[j.images.len() + i] == #[trigger] images[i],
        j.after_page(links, images).0.goal == j.goal,
        j.after_page(links, images).0.cooldown == j.cooldown,
{
}

/// The relay is complete exactly when the images reach the goal; then it stays on its page.
/// Otherwise it moves on to the page of the second pin found on this page, or of the only
/// one, and is stranded, stopping, where the page gave no pin.
pub proof fn lemma_next_page(j: Journey, links: Seq<Seq<char>>, images: Seq<Seq<char>>)
    ensures
        ({
            let (after, turn) = j.after_page(links, images);
            let total = j.images.len() + images.len();
            &&& (turn == Turn::Complete) <==> total >= j.goal
            &&& total >= j.goal ==> after.page == j.page && after.stranded == j.stranded
            &&& total < j.goal && links.len() >= 2 ==> turn == Turn::Onward && after.page == links[1]
                && after.stranded == j.stranded
            &&& total < j.goal && links.len() == 1 ==> turn == Turn::Onward && after.page == links[0]
                && after.stranded == j.stranded
            &&& total < j.goal && links.len() == 0 ==> turn == Turn::Stranded && after.stranded
                && after.page == j.page && after.done()
        }),
{
}

/// Every page visit either adds an image or ends the relay, so a relay that asks for `n`
/// images visits at most `n` pages.
pub proof fn lemma_page_progress(j: Journey, h: Harvest)
    requires
        j.inv(),
        h.inv(),
        h.limit <= j.goal - j.images.len(),
    ensures
        j.after_page(h.links, h.images).0.images.len() > j.images.len() || j.after_page(h.links, h.images).0.done(),
        j.after_page(h.links, h.images).0.inv(),
{
}

} // verus!
