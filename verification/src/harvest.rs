use vstd::prelude::*;
use vstd::string::*;

use crate::text::{
    large_marker, lemma_replace_at_start, lemma_replace_without_occurrence, lemma_resize_leaves_no_thumbnail,
    replace_all, replace_all_str, thumb_marker,
};

verus! {

/// Address that a pin's relative link is resolved against.
pub const PIN_ORIGIN: &'static str = "https://ru.pinterest.com";

/// Thumbnail size marker in an image URL.
pub const THUMBNAIL_SIZE: &'static str = "236x";

/// Size marker of the larger image that is downloaded in place of the thumbnail.
pub const FULL_SIZE: &'static str = "736x";

/// Consecutive rounds without a new pin after which a page counts as stalled.
pub const STALL_ROUNDS: u32 = 3;

/// Extra pause, in milliseconds, after a round that found nothing new.
pub const BARREN_PAUSE_MS: u64 = 1500;

/// Pause, in milliseconds, between the two jumps that shake a stalled page.
pub const SHAKE_PAUSE_MS: u64 = 800;

/// What a collector does when its page has stalled.
#[derive(PartialEq, Eq, Structural, Clone, Copy, Debug)]
pub enum OnStall {
    /// Jump to the top and back to the bottom of the page, and go on collecting.
    Shake,
    /// Stop collecting from this page.
    GiveUp,
}

/// One piece of browser work that the driver performs between two rounds.
#[derive(PartialEq, Eq, Structural, Clone, Copy, Debug)]
pub enum Chore {
    /// Scroll to the top of the page.
    ScrollToTop,
    /// Scroll to the bottom of the page.
    ScrollToBottom,
    /// Scroll down by two window heights.
    ScrollDown,
    /// Wait for the given number of milliseconds.
    Pause(u64),
}

/// The full address of a pin whose page has the relative link `href`.
pub open spec fn pin_link(href: Seq<char>) -> Seq<char> {
    PIN_ORIGIN@ + href
}

/// The address of the large image for a pin whose thumbnail is at `src`.
pub open spec fn full_image(src: Seq<char>) -> Seq<char> {
    replace_all(src, THUMBNAIL_SIZE@, FULL_SIZE@)
}

/// What a collector holds.
#[verifier::ext_equal]
pub struct Harvest {
    /// Most images it collects.
    pub limit: nat,
    /// Pause after a round that found something new, in milliseconds.
    pub cooldown: nat,
    /// What it does when its page stalls.
    pub on_stall: OnStall,
    /// The relative links of the pins taken, in the order they were taken.
    pub hrefs: Seq<Seq<char>>,
    /// The full addresses of the pins taken.
    pub links: Seq<Seq<char>>,
    /// The image addresses of the pins taken.
    pub images: Seq<Seq<char>>,
    /// Rounds in a row, up to now, that found nothing new.
    pub barren: nat,
    /// How many images there were when the current round began.
    pub round_start: nat,
    /// Whether the page has stalled for good.
    pub exhausted: bool,
}

impl Harvest {
    /// The state of a collector that has taken nothing yet.
    pub open spec fn fresh(limit: nat, cooldown: nat, on_stall: OnStall) -> Harvest {
        Harvest {
            limit,
            cooldown,
            on_stall,
            hrefs: Seq::empty(),
            links: Seq::empty(),
            images: Seq::empty(),
            barren: 0,
            round_start: 0,
            exhausted: false,
        }
    }

    /// What every collector keeps: no more images than its limit, one link and one image per
    /// relative link, no relative link twice, each link the pin's full address, and a count
    /// of barren rounds below the stall mark unless the page was given up.
    pub open spec fn inv(self) -> bool {
        &&& self.images.len() <= self.limit
        &&& self.hrefs.len() == self.images.len()
        &&& self.links.len() == self.images.len()
        &&& self.hrefs.no_duplicates()
        &&& forall|i: int| 0 <= i < self.links.len() ==> #[trigger] self.links[i] == pin_link(self.hrefs[i])
        &&& self.exhausted ==> self.on_stall == OnStall::GiveUp && self.barren == STALL_ROUNDS
        &&& !self.exhausted ==> self.barren < STALL_ROUNDS
        &&& self.round_start <= self.images.len()
        &&& self.cooldown + BARREN_PAUSE_MS <= u64::MAX
    }

    /// Whether collecting has ended: the limit is reached or the page has stalled for good.
    pub open spec fn done(self) -> bool {
        self.images.len() >= self.limit || self.exhausted
    }

    /// The chores after a round, and the state they leave, as the collector decides them.
    pub open spec fn settle(self) -> (Harvest, Seq<Chore>) {
        if self.done() {
            (self, Seq::empty())
        } else if self.images.len() == self.round_start {
            let barren: nat = self.barren + 1;
            if barren >= STALL_ROUNDS {
                match self.on_stall {
                    OnStall::Shake => (
                        Harvest { barren: 0, ..self },
                        seq![
                            Chore::ScrollToTop,
                            Chore::Pause(SHAKE_PAUSE_MS),
                            Chore::ScrollToBottom,
                            Chore::Pause((self.cooldown + BARREN_PAUSE_MS) as u64),
                            Chore::ScrollDown,
                        ],
                    ),
                    OnStall::GiveUp => (Harvest { barren, exhausted: true, ..self }, Seq::empty()),
                }
            } else {
                (
                    Harvest { barren, ..self },
                    seq![Chore::Pause((self.cooldown + BARREN_PAUSE_MS) as u64), Chore::ScrollDown],
                )
            }
        } else {
            (Harvest { barren: 0, ..self }, seq![Chore::Pause(self.cooldown as u64), Chore::ScrollDown])
        }
    }
}

/// Collects pins from the page a browser shows, round by round: the driver lists the pins
/// on the page, offers each to the collector while it wants more, and after the round
/// performs the chores the collector hands back.
pub struct Collector {
    limit: usize,
    cooldown: u64,
    on_stall: OnStall,
    hrefs: Vec<String>,
    links: Vec<String>,
    images: Vec<String>,
    barren: u32,
    round_start: usize,
    exhausted: bool,
}

/// The texts of a sequence of strings.
pub open spec fn views(v: Seq<String>) -> Seq<Seq<char>> {
    v.map_values(|s: String| s@)
}

impl View for Collector {
    type V = Harvest;

    closed spec fn view(&self) -> Harvest {
        Harvest {
            limit: self.limit as nat,
            cooldown: self.cooldown as nat,
            on_stall: self.on_stall,
            hrefs: views(self.hrefs@),
            links: views(self.links@),
            images: views(self.images@),
            barren: self.barren as nat,
            round_start: self.round_start as nat,
            exhausted: self.exhausted,
        }
    }
}

fn seen_before(list: &Vec<String>, s: &String) -> (b: bool)
    ensures
        b == views(list@).contains(s@),
{
    let mut i: usize = 0;
    while i < list.len()
        invariant
            i <= list.len(),
            forall|j: int| 0 <= j < i ==> views(list@)[j] != s@,
        decreases list.len() - i,
    {
        if list[i] == *s {
            assert(views(list@)[i as int] == s@);
            return true;
        }
        i = i + 1;
    }
    assert forall|j: int| 0 <= j < views(list@).len() implies views(list@)[j] != s@ by {}
    false
}

impl Collector {
    pub open spec fn wf(&self) -> bool {
        self@.inv()
    }

    /// A collector that takes at most `limit` pins and waits `cooldown` milliseconds after a
    /// round that found something new.
    pub fn new(limit: usize, cooldown: u64, on_stall: OnStall) -> (c: Collector)
        requires
            cooldown + BARREN_PAUSE_MS <= u64::MAX,
        ensures
            c.wf(),
            c@ == Harvest::fresh(limit as nat, cooldown as nat, on_stall),
    {
        let c = Collector {
            limit,
            cooldown,
            on_stall,
            hrefs: Vec::new(),
            links: Vec::new(),
            images: Vec::new(),
            barren: 0,
            round_start: 0,
            exhausted: false,
        };
        assert(c@ =~= Harvest::fresh(limit as nat, cooldown as nat, on_stall));
        c
    }

    /// Whether collecting has ended.
    pub fn is_done(&self) -> (b: bool)
        requires
            self.wf(),
        ensures
            b == self@.done(),
    {
        self.images.len() >= self.limit || self.exhausted
    }

    /// Whether the collector takes another pin: whether collecting has not ended.
    pub fn wants_more(&self) -> (b: bool)
        requires
            self.wf(),
        ensures
            b == !self@.done(),
    {
        !self.is_done()
    }

    /// How many pins have been taken.
    pub fn count(&self) -> (n: usize)
        requires
            self.wf(),
        ensures
            n == self@.images.len(),
    {
        self.images.len()
    }

    /// Starts a round: what is taken from now on counts as this round's finds.
    pub fn begin_round(&mut self)
        requires
            old(self).wf(),
        ensures
            final(self).wf(),
            final(self)@ == (Harvest { round_start: old(self)@.images.len(), ..old(self)@ }),
    {
        self.round_start = self.images.len();
        assert(self@ =~= (Harvest { round_start: old(self)@.images.len(), ..old(self)@ }));
    }

    /// Offers a pin read from the page: its relative link and its thumbnail address, or
    /// nothing where the pin had no link or no image. The pin is taken where collecting has
    /// not ended and no pin with the same link was taken; then its full address and the
    /// address of its large image are kept.
    pub fn offer(&mut self, pin: Option<(String, String)>) -> (taken: bool)
        requires
            old(self).wf(),
        ensures
            final(self).wf(),
            taken == match pin {
                Some((href, _)) => !old(self)@.done() && !old(self)@.hrefs.contains(href@),
                None => false,
            },
            taken ==> match pin {
                Some((href, src)) => final(self)@ == (Harvest {
                    hrefs: old(self)@.hrefs.push(href@),
                    links: old(self)@.links.push(pin_link(href@)),
                    images: old(self)@.images.push(full_image(src@)),
                    ..old(self)@
                }),
                None => false,
            },
            !taken ==> final(self)@ == old(self)@,
    {
        match pin {
            None => false,
            Some((href, src)) => {
                if self.is_done() {
                    return false;
                }
                if seen_before(&self.hrefs, &href) {
                    return false;
                }
                let mut link = String::from_str(PIN_ORIGIN);
                link.append(href.as_str());
                proof {
                    reveal_strlit("236x");
                }
                let image = replace_all_str(src.as_str(), THUMBNAIL_SIZE, FULL_SIZE);
                let ghost h = href@;
                let ghost old_view = self@;
                self.hrefs.push(href);
                self.links.push(link);
                self.images.push(image);
                proof {
                    assert(views(self.hrefs@) =~= old_view.hrefs.push(h));
                    assert(views(self.links@) =~= old_view.links.push(pin_link(h)));
                    assert(views(self.images@) =~= old_view.images.push(full_image(src@)));
                    assert forall|i: int, j: int|
                        0 <= i < self@.hrefs.len() && 0 <= j < self@.hrefs.len() && i != j
                        implies self@.hrefs[i] != self@.hrefs[j] by {
                        if i == old_view.hrefs.len() as int {
                            assert(self@.hrefs[j] == old_view.hrefs[j]);
                        } else if j == old_view.hrefs.len() as int {
                            assert(self@.hrefs[i] == old_view.hrefs[i]);
                        }
                    }
                    assert forall|i: int| 0 <= i < self@.links.len()
                        implies #[trigger] self@.links[i] == pin_link(self@.hrefs[i]) by {
                        if i < old_view.links.len() {
                            assert(self@.links[i] == old_view.links[i]);
                            assert(self@.hrefs[i] == old_view.hrefs[i]);
                        }
                    }
                }
                true
            },
        }
    }

    /// Ends a round and hands back the chores to perform before the next one: none where
    /// collecting has ended; after a round with new pins, the cooldown pause; after a round
    /// without, a longer pause, and where that makes three such rounds in a row, a shake
    /// of the page or the end of collecting from it. Each list but the empty one ends with
    /// a scroll down.
    pub fn end_round(&mut self) -> (chores: Vec<Chore>)
        requires
            old(self).wf(),
        ensures
            final(self).wf(),
            final(self)@ == old(self)@.settle().0,
            chores@ == old(self)@.settle().1,
            !old(self)@.done() && old(self)@.images.len() > old(self)@.round_start ==> final(self)@.barren == 0
                && chores@ == seq![Chore::Pause(old(self)@.cooldown as u64), Chore::ScrollDown],
            final(self)@.images == old(self)@.images,
    {
        let mut chores: Vec<Chore> = Vec::new();
        if self.images.len() >= self.limit || self.exhausted {
            return chores;
        }
        if self.images.len() == self.round_start {
            let barren: u32 = self.barren + 1;
            if barren >= STALL_ROUNDS {
                match self.on_stall {
                    OnStall::Shake => {
                        self.barren = 0;
                        chores.push(Chore::ScrollToTop);
                        chores.push(Chore::Pause(SHAKE_PAUSE_MS));
                        chores.push(Chore::ScrollToBottom);
                        chores.push(Chore::Pause(self.cooldown + BARREN_PAUSE_MS));
                        chores.push(Chore::ScrollDown);
                    },
                    OnStall::GiveUp => {
                        self.barren = barren;
                        self.exhausted = true;
                    },
                }
            } else {
                self.barren = barren;
                chores.push(Chore::Pause(self.cooldown + BARREN_PAUSE_MS));
                chores.push(Chore::ScrollDown);
            }
        } else {
            self.barren = 0;
            chores.push(Chore::Pause(self.cooldown));
            chores.push(Chore::ScrollDown);
        }
        assert(self@ =~= old(self)@.settle().0);
        assert(chores@ =~= old(self)@.settle().1);
        chores
    }

    /// The full addresses of the pins taken and the addresses of their large images.
    pub fn into_parts(self) -> (parts: (Vec<String>, Vec<String>))
        requires
            self.wf(),
        ensures
            views(parts.0@) == self@.links,
            views(parts.1@) == self@.images,
    {
        (self.links, self.images)
    }
}

/// A collector that shakes stalled pages ends only once it holds exactly its limit of images.
pub proof fn lemma_shaking_collector_ends_full(h: Harvest)
    requires
        h.inv(),
        h.on_stall == OnStall::Shake,
    ensures
        h.done() <==> h.images.len() == h.limit,
{
}

/// Every round after which collecting goes on ends with a scroll down; a round after which
/// it has ended asks for nothing.
pub proof fn lemma_round_ends_scrolling(h: Harvest)
    requires
        h.inv(),
    ensures
        h.settle().0.inv(),
        !h.settle().0.done() ==> h.settle().1.len() > 0 && h.settle().1.last() == Chore::ScrollDown,
        h.settle().0.done() ==> h.settle().1.len() == 0,
{
}

/// The third round in a row without a new pin shakes the page and starts the count anew,
/// or gives the page up.
pub proof fn lemma_third_barren_round(h: Harvest)
    requires
        h.inv(),
        !h.done(),
        h.images.len() == h.round_start,
        h.barren + 1 == 3,
    ensures
        h.on_stall == OnStall::Shake ==> h.settle().1 == seq![
            Chore::ScrollToTop,
            Chore::Pause(800),
            Chore::ScrollToBottom,
            Chore::Pause((h.cooldown + 1500) as u64),
            Chore::ScrollDown,
        ] && h.settle().0.barren == 0 && !h.settle().0.done(),
        h.on_stall == OnStall::GiveUp ==> h.settle().0.done() && h.settle().1.len() == 0,
        h.settle().0.images == h.images && h.settle().0.hrefs == h.hrefs && h.settle().0.links == h.links,
{
}

/// After a round that took a new pin, with collecting not ended, the count of barren rounds
/// starts anew whatever the page does on a stall, and the driver waits the cooldown and
/// scrolls down.
pub proof fn lemma_productive_round(h: Harvest)
    requires
        h.inv(),
        !h.done(),
        h.images.len() > h.round_start,
    ensures
        h.settle().0.barren == 0,
        !h.settle().0.done(),
        h.settle().1 == seq![Chore::Pause(h.cooldown as u64), Chore::ScrollDown],
        h.settle().0.images == h.images && h.settle().0.hrefs == h.hrefs && h.settle().0.links == h.links,
{
}

/// A round that took nothing, short of the third in a row, adds one to the count of barren
/// rounds; the driver waits the cooldown and the extra barren pause, and scrolls down.
pub proof fn lemma_barren_round(h: Harvest)
    requires
        h.inv(),
        !h.done(),
        h.images.len() == h.round_start,
        h.barren + 1 < 3,
    ensures
        h.settle().0.barren == h.barren + 1,
        !h.settle().0.done(),
        h.settle().1 == seq![Chore::Pause((h.cooldown + BARREN_PAUSE_MS) as u64), Chore::ScrollDown],
        h.settle().0.images == h.images && h.settle().0.hrefs == h.hrefs && h.settle().0.links == h.links,
{
}

/// The image kept for a pin never holds the thumbnail size marker: every occurrence of it
/// in the thumbnail address, wherever it stands, is turned into the large size marker. An
/// address without the marker is kept as it is.
pub proof fn lemma_full_image_is_large(src: Seq<char>)
    ensures
        forall|i: int|
            0 <= i && i + THUMBNAIL_SIZE@.len() <= full_image(src).len()
            ==> #[trigger] full_image(src).subrange(i, i + THUMBNAIL_SIZE@.len()) != THUMBNAIL_SIZE@,
        src.len() >= THUMBNAIL_SIZE@.len() && src.subrange(0, THUMBNAIL_SIZE@.len() as int) == THUMBNAIL_SIZE@
            ==> full_image(src) == FULL_SIZE@ + full_image(src.skip(THUMBNAIL_SIZE@.len() as int)),
        (forall|i: int|
            0 <= i && i + THUMBNAIL_SIZE@.len() <= src.len()
            ==> #[trigger] src.subrange(i, i + THUMBNAIL_SIZE@.len()) != THUMBNAIL_SIZE@)
            ==> full_image(src) == src,
{
    reveal_strlit("236x");
    reveal_strlit("736x");
    assert(THUMBNAIL_SIZE@ =~= thumb_marker());
    assert(FULL_SIZE@ =~= large_marker());
    lemma_resize_leaves_no_thumbnail(src);
    if src.len() >= THUMBNAIL_SIZE@.len() && src.subrange(0, THUMBNAIL_SIZE@.len() as int) == THUMBNAIL_SIZE@ {
        lemma_replace_at_start(src, THUMBNAIL_SIZE@, FULL_SIZE@);
    }
    if forall|i: int|
        0 <= i && i + THUMBNAIL_SIZE@.len() <= src.len()
        ==> #[trigger] src.subrange(i, i + THUMBNAIL_SIZE@.len()) != THUMBNAIL_SIZE@ {
        lemma_replace_without_occurrence(src, THUMBNAIL_SIZE@, FULL_SIZE@);
    }
}

/// A pin's full address is the site's address followed by the pin's relative link.
pub proof fn lemma_pin_link(href: Seq<char>)
    ensures
        pin_link(href).len() == 24 + href.len(),
        pin_link(href).take(24) == "https://ru.pinterest.com"@,
        pin_link(href).skip(24) == href,
{
    reveal_strlit("https://ru.pinterest.com");
    assert(pin_link(href).take(24) =~= PIN_ORIGIN@);
    assert(pin_link(href).skip(24) =~= href);
}

} // verus!
