//! The desktop notifier: which incidents are announced, how often, and with which sound.
use crate::model;
use crate::ordered_map::{self, Entries, OrderedMap};
use crate::text;
pub use crate::tone::tone;
use vstd::prelude::*;
use vstd::string::StringExecFns;

verus! {

/// What the notifier is asked to do.
#[derive(Debug, Clone, Copy, PartialEq, Eq, Structural)]
pub enum NotifyCommand {
    /// Run one notification worker for this user session.
    Run { silent: bool },
    /// Play a desktop notification and sound without changing the supply.
    Test { critical: bool },
    /// Temporarily silence desktop sounds; notifications continue.
    Silence { minutes: u32 },
    /// Inspect delivery history and silence expiration.
    Status,
}

/// How often an incident is announced at most.
pub const MAX_ATTEMPTS: u8 = 3;

/// The shortest time between two announcements of an incident.
pub const REPEAT_MS: i64 = 30_000;

/// How long it is remembered that an incident was announced.
pub const RETENTION_MS: i64 = 2_592_000_000;

/// Of how many incidents it is remembered that they were announced.
pub const MAX_DELIVERIES: usize = 4096;

/// How often and when an incident was announced.
#[derive(Debug)]
pub struct Delivery {
    pub delivered: bool,
    pub attempts: u8,
    pub last_at_ms: i64,
    pub error: Option<String>,
}

/// How often and when an incident was announced, with the error as characters.
pub struct DeliveryModel {
    pub delivered: bool,
    pub attempts: u8,
    pub last_at_ms: i64,
    pub error: Option<Seq<char>>,
}

impl View for Delivery {
    type V = DeliveryModel;

    open spec fn view(&self) -> DeliveryModel {
        DeliveryModel {
            delivered: self.delivered,
            attempts: self.attempts,
            last_at_ms: self.last_at_ms,
            error: match self.error {
                Some(e) => Some(e@),
                None => None,
            },
        }
    }
}

impl Default for Delivery {
    fn default() -> (d: Self)
        ensures
            d@ == DeliveryModel::none(),
    {
        Delivery { delivered: false, attempts: 0, last_at_ms: 0, error: None }
    }
}

impl DeliveryModel {
    /// The incident was not announced.
    pub open spec fn none() -> DeliveryModel {
        DeliveryModel { delivered: false, attempts: 0, last_at_ms: 0, error: None }
    }

    /// The incident is to be announced: a warning until it was delivered once, and no incident too
    /// often or too soon.
    pub open spec fn is_due(self, critical: bool, now_ms: i64) -> bool {
        &&& critical || !self.delivered
        &&& self.attempts < MAX_ATTEMPTS
        &&& now_ms - self.last_at_ms >= REPEAT_MS
    }

    /// After one more attempt.
    pub open spec fn attempted(self, now_ms: i64, error: Option<Seq<char>>) -> DeliveryModel {
        DeliveryModel {
            delivered: error is None,
            attempts: if self.attempts < 255 {
                (self.attempts + 1) as u8
            } else {
                255
            },
            last_at_ms: now_ms,
            error,
        }
    }
}

/// An open incident, as far as the notifier reads it.
#[derive(Debug)]
pub struct Notice {
    pub id: String,
    pub acknowledged: bool,
    pub critical: bool,
    pub message: String,
}

/// An open incident, with its texts as characters.
pub struct NoticeModel {
    pub id: Seq<char>,
    pub acknowledged: bool,
    pub critical: bool,
    pub message: Seq<char>,
}

impl View for Notice {
    type V = NoticeModel;

    open spec fn view(&self) -> NoticeModel {
        NoticeModel {
            id: self.id@,
            acknowledged: self.acknowledged,
            critical: self.critical,
            message: self.message@,
        }
    }
}

impl DeepView for Notice {
    type V = NoticeModel;

    open spec fn deep_view(&self) -> NoticeModel {
        self@
    }
}

impl Clone for Notice {
    fn clone(&self) -> (copy: Self)
        ensures
            copy@ == self@,
    {
        Notice {
            id: self.id.clone(),
            acknowledged: self.acknowledged,
            critical: self.critical,
            message: self.message.clone(),
        }
    }
}

/// Reads an open incident from the texts in which it was sent; nothing where it has no identifier.
pub fn read_notice(
    id: Option<&str>,
    acknowledged: bool,
    severity: Option<&str>,
    message: Option<&str>,
) -> (notice: Option<Notice>)
    ensures
        match id {
            Some(id) => notice matches Some(n) && n@ == (NoticeModel {
                id: id@,
                acknowledged,
                critical: severity matches Some(s) && s@ == "critical"@,
                message: match message {
                    Some(words) => words@,
                    None => "PSU incident"@,
                },
            }),
            None => notice is None,
        },
{
    match id {
        Some(id) => {
            let critical = match severity {
                Some(s) => s.to_owned() == "critical".to_owned(),
                None => false,
            };
            let message = match message {
                Some(words) => words.to_owned(),
                None => "PSU incident".to_owned(),
            };
            Some(Notice { id: id.to_owned(), acknowledged, critical, message })
        },
        None => None,
    }
}

/// What is remembered of announcements.
pub struct State {
    pub silenced_until_ms: i64,
    pub deliveries: OrderedMap<Delivery>,
}

/// The announcements by incident.
pub type Deliveries = Entries<DeliveryModel>;

/// The announcements of one incident.
pub open spec fn delivery_of(deliveries: Deliveries, id: Seq<char>) -> DeliveryModel {
    match ordered_map::lookup(deliveries, id) {
        Some(d) => d,
        None => DeliveryModel::none(),
    }
}

/// The table after the first `n` incidents were looked at: each that is not acknowledged has its
/// entry.
pub open spec fn entered(deliveries: Deliveries, notices: Seq<NoticeModel>, n: nat) -> Deliveries
    decreases n,
{
    if n == 0 {
        deliveries
    } else {
        let rest = entered(deliveries, notices, (n - 1) as nat);
        if notices[n - 1].acknowledged {
            rest
        } else {
            ordered_map::put(rest, notices[n - 1].id, delivery_of(rest, notices[n - 1].id))
        }
    }
}

/// Those of the first `n` incidents that are to be announced.
pub open spec fn due_of(
    deliveries: Deliveries,
    notices: Seq<NoticeModel>,
    now_ms: i64,
    n: nat,
) -> Seq<NoticeModel>
    decreases n,
{
    if n == 0 {
        Seq::empty()
    } else {
        let rest = due_of(deliveries, notices, now_ms, (n - 1) as nat);
        let notice = notices[n - 1];
        if !notice.acknowledged && delivery_of(deliveries, notice.id).is_due(
            notice.critical,
            now_ms,
        ) {
            rest.push(notice)
        } else {
            rest
        }
    }
}

/// The table after the first `n` of some incidents were announced.
pub open spec fn attempted_through(
    deliveries: Deliveries,
    pending: Seq<NoticeModel>,
    now_ms: i64,
    error: Option<Seq<char>>,
    n: nat,
) -> Deliveries
    decreases n,
{
    if n == 0 {
        deliveries
    } else {
        let rest = attempted_through(deliveries, pending, now_ms, error, (n - 1) as nat);
        ordered_map::put(
            rest,
            pending[n - 1].id,
            delivery_of(rest, pending[n - 1].id).attempted(now_ms, error),
        )
    }
}

/// The announcements that are recent enough to be remembered.
pub open spec fn remembered(deliveries: Deliveries, now_ms: i64) -> Deliveries
    decreases deliveries.len(),
{
    if deliveries.len() == 0 {
        Seq::empty()
    } else if now_ms - deliveries.last().1.last_at_ms < RETENTION_MS {
        remembered(deliveries.drop_last(), now_ms).push(deliveries.last())
    } else {
        remembered(deliveries.drop_last(), now_ms)
    }
}

/// The first of the oldest announcements among the first `n`.
pub open spec fn oldest(deliveries: Deliveries, n: nat) -> int
    decreases n,
{
    if n <= 1 {
        0
    } else {
        let rest = oldest(deliveries, (n - 1) as nat);
        if deliveries[n - 1].1.last_at_ms < deliveries[rest].1.last_at_ms {
            n - 1
        } else {
            rest
        }
    }
}

/// The newest announcements, as many as are remembered.
pub open spec fn trimmed(deliveries: Deliveries) -> Deliveries
    decreases deliveries.len(),
{
    if deliveries.len() > MAX_DELIVERIES {
        let at = oldest(deliveries, deliveries.len());
        if 0 <= at < deliveries.len() {
            trimmed(deliveries.remove(at))
        } else {
            deliveries
        }
    } else {
        deliveries
    }
}

/// The oldest announcement is one of them.
proof fn oldest_is_one(deliveries: Deliveries, n: nat)
    requires
        0 < n <= deliveries.len(),
    ensures
        0 <= oldest(deliveries, n) < n,
        forall|i: int|
            #![trigger deliveries[i]]
            0 <= i < n ==> deliveries[oldest(deliveries, n)].1.last_at_ms
                <= deliveries[i].1.last_at_ms,
    decreases n,
{
    if n > 1 {
        oldest_is_one(deliveries, (n - 1) as nat);
    }
}

impl State {
    /// The table is in order.
    pub open spec fn wf(&self) -> bool {
        self.deliveries.wf()
    }

    /// Nothing was announced, and nothing is silenced.
    pub fn new() -> (state: State)
        ensures
            state.wf(),
            state.silenced_until_ms == 0,
            state.deliveries@ == Seq::<(Seq<char>, DeliveryModel)>::empty(),
    {
        State { silenced_until_ms: 0, deliveries: OrderedMap::new() }
    }

    /// Picks the incidents that are to be announced now.
    pub fn due(&mut self, notices: &Vec<Notice>, now_ms: i64) -> (pending: Vec<Notice>)
        requires
            old(self).wf(),
        ensures
            final(self).wf(),
            final(self).silenced_until_ms == old(self).silenced_until_ms,
            final(self).deliveries@ == entered(
                old(self).deliveries@,
                notices.deep_view(),
                notices@.len(),
            ),
            pending.deep_view() == due_of(
                old(self).deliveries@,
                notices.deep_view(),
                now_ms,
                notices@.len(),
            ),
    {
        let ghost before = self.deliveries@;
        let ghost all = notices.deep_view();
        let mut pending: Vec<Notice> = Vec::new();
        let mut i: usize = 0;
        assert(pending.deep_view() =~= due_of(before, all, now_ms, 0));
        proof {
            self.deliveries.wf_ascends();
        }
        while i < notices.len()
            invariant
                i <= notices@.len(),
                all == notices.deep_view(),
                self.wf(),
                ordered_map::ascending(before),
                self.silenced_until_ms == old(self).silenced_until_ms,
                self.deliveries@ == entered(before, all, i as nat),
                pending.deep_view() == due_of(before, all, now_ms, i as nat),
            decreases notices@.len() - i,
        {
            let notice = &notices[i];
            assert(all[i as int] == notice@);
            proof {
                entering_changes_nothing(before, all, i as nat, notice@.id);
                self.deliveries.wf_ascends();
            }
            if !notice.acknowledged {
                if !self.deliveries.contains_key(notice.id.as_str()) {
                    self.deliveries.insert(notice.id.clone(), Delivery::default());
                } else {
                    proof {
                        ordered_map::put_same(
                            self.deliveries@,
                            notice@.id,
                            delivery_of(self.deliveries@, notice@.id),
                        );
                    }
                }
                proof {
                    entering_changes_nothing(before, all, (i + 1) as nat, notice@.id);
                    ordered_map::put_is_a_map_update(
                        entered(before, all, i as nat),
                        notice@.id,
                        delivery_of(entered(before, all, i as nat), notice@.id),
                    );
                }
                match self.deliveries.get(notice.id.as_str()) {
                    Some(d) => {
                        if (notice.critical || !d.delivered) && d.attempts < MAX_ATTEMPTS
                            && now_ms as i128 - d.last_at_ms as i128 >= REPEAT_MS as i128 {
                            let ghost so_far = pending.deep_view();
                            pending.push(notice.clone());
                            assert(pending.deep_view() =~= so_far.push(notice@));
                        }
                    },
                    None => {},
                }
            }
            i = i + 1;
        }
        pending
    }

    /// Remembers the attempt to announce some incidents, and forgets what is too old or too much.
    pub fn record(&mut self, pending: &Vec<Notice>, now_ms: i64, error: Option<String>)
        requires
            old(self).wf(),
        ensures
            final(self).wf(),
            final(self).silenced_until_ms == old(self).silenced_until_ms,
            final(self).deliveries@ == trimmed(
                remembered(
                    attempted_through(
                        old(self).deliveries@,
                        pending.deep_view(),
                        now_ms,
                        model::optional_text(error),
                        pending@.len(),
                    ),
                    now_ms,
                ),
            ),
    {
        let ghost before = self.deliveries@;
        let ghost all = pending.deep_view();
        let ghost words = model::optional_text(error);
        let mut i: usize = 0;
        while i < pending.len()
            invariant
                i <= pending@.len(),
                all == pending.deep_view(),
                words == model::optional_text(error),
                self.wf(),
                self.silenced_until_ms == old(self).silenced_until_ms,
                self.deliveries@ == attempted_through(before, all, now_ms, words, i as nat),
            decreases pending@.len() - i,
        {
            assert(all[i as int] == pending@[i as int]@);
            let attempts: u8 = match self.deliveries.get(pending[i].id.as_str()) {
                Some(d) => d.attempts,
                None => 0,
            };
            let next: u8 = if attempts < 255 {
                attempts + 1
            } else {
                255
            };
            let failure: Option<String> = match &error {
                Some(e) => Some(e.clone()),
                None => None,
            };
            let delivery = Delivery {
                delivered: error.is_none(),
                attempts: next,
                last_at_ms: now_ms,
                error: failure,
            };
            self.deliveries.insert(pending[i].id.clone(), delivery);
            i = i + 1;
        }
        self.forget_old(now_ms);
        self.forget_most();
    }

    /// Forgets the announcements that are too old.
    fn forget_old(&mut self, now_ms: i64)
        requires
            old(self).wf(),
        ensures
            final(self).wf(),
            final(self).silenced_until_ms == old(self).silenced_until_ms,
            final(self).deliveries@ == remembered(old(self).deliveries@, now_ms),
    {
        let ghost before = self.deliveries@;
        let mut i: usize = 0;
        let ghost mut seen: int = 0;
        assert(remembered(before.take(0), now_ms) + before.skip(0) =~= before);
        while i < self.deliveries.len()
            invariant
                self.wf(),
                self.silenced_until_ms == old(self).silenced_until_ms,
                0 <= seen <= before.len(),
                i == remembered(before.take(seen), now_ms).len(),
                self.deliveries@ == remembered(before.take(seen), now_ms) + before.skip(seen),
            decreases self.deliveries@.len() - i,
        {
            let ghost kept = remembered(before.take(seen), now_ms);
            assert(self.deliveries@[i as int] == before[seen]);
            assert(before.take(seen + 1).drop_last() =~= before.take(seen));
            assert(before.take(seen + 1).last() == before[seen]);
            let fresh = (now_ms as i128 - self.deliveries.value_at(i).last_at_ms as i128)
                < RETENTION_MS as i128;
            if fresh {
                i = i + 1;
                assert(kept + before.skip(seen) =~= kept.push(before[seen]) + before.skip(seen + 1));
            } else {
                self.deliveries.remove_at(i);
                assert((kept + before.skip(seen)).remove(i as int) =~= kept + before.skip(seen + 1));
            }
            proof {
                seen = seen + 1;
            }
        }
        assert(seen == before.len());
        assert(before.take(seen) =~= before);
        assert(self.deliveries@ =~= remembered(before, now_ms));
    }

    /// Forgets the oldest announcements beyond the limit.
    fn forget_most(&mut self)
        requires
            old(self).wf(),
        ensures
            final(self).wf(),
            final(self).silenced_until_ms == old(self).silenced_until_ms,
            final(self).deliveries@ == trimmed(old(self).deliveries@),
    {
        while self.deliveries.len() > MAX_DELIVERIES
            invariant
                self.wf(),
                self.silenced_until_ms == old(self).silenced_until_ms,
                trimmed(self.deliveries@) == trimmed(old(self).deliveries@),
            decreases self.deliveries@.len(),
        {
            let ghost all = self.deliveries@;
            let mut at: usize = 0;
            let mut i: usize = 1;
            while i < self.deliveries.len()
                invariant
                    1 <= i <= all.len(),
                    self.wf(),
                    self.deliveries@ == all,
                    at < i,
                    at == oldest(all, i as nat),
                decreases all.len() - i,
            {
                if self.deliveries.value_at(i).last_at_ms < self.deliveries.value_at(at).last_at_ms {
                    at = i;
                }
                i = i + 1;
            }
            self.deliveries.remove_at(at);
        }
    }
}

/// Looking at incidents changes no announcement.
proof fn entering_changes_nothing(
    deliveries: Deliveries,
    notices: Seq<NoticeModel>,
    n: nat,
    id: Seq<char>,
)
    requires
        ordered_map::ascending(deliveries),
    ensures
        ordered_map::ascending(entered(deliveries, notices, n)),
        delivery_of(entered(deliveries, notices, n), id) == delivery_of(deliveries, id),
    decreases n,
{
    if n > 0 {
        entering_changes_nothing(deliveries, notices, (n - 1) as nat, id);
        let rest = entered(deliveries, notices, (n - 1) as nat);
        ordered_map::put_is_a_map_update(
            rest,
            notices[n - 1].id,
            delivery_of(rest, notices[n - 1].id),
        );
    }
}

/// What is shown and played.
#[derive(Debug)]
pub struct Announcement {
    pub title: String,
    pub message: String,
    pub critical: bool,
    pub sound: bool,
}

/// One of some incidents is critical.
pub open spec fn any_critical(pending: Seq<NoticeModel>) -> bool {
    exists|i: int| 0 <= i < pending.len() && (#[trigger] pending[i]).critical
}

/// The messages of the first `n` incidents, each in a line of its own.
pub open spec fn lines_of(pending: Seq<NoticeModel>, n: nat) -> Seq<char>
    decreases n,
{
    if n == 0 {
        Seq::empty()
    } else if n == 1 {
        pending[0].message
    } else {
        lines_of(pending, (n - 1) as nat) + "\n"@ + pending[n - 1].message
    }
}

/// The title of an announcement.
pub open spec fn title(critical: bool) -> Seq<char> {
    if critical {
        "MSI PSU critical alert"@
    } else {
        "MSI PSU warning"@
    }
}

/// Announces incidents that were observed together: they share one message, of which the first four
/// have a line, and one sound.
pub fn announce(pending: &Vec<Notice>, silent: bool, silenced_until_ms: i64, now_ms: i64) -> (a:
    Announcement)
    ensures
        a.critical == any_critical(pending.deep_view()),
        a.title@ == title(a.critical),
        a.message@ == lines_of(
            pending.deep_view(),
            if pending@.len() < 4 {
                pending@.len()
            } else {
                4
            },
        ),
        a.sound == (!silent && now_ms >= silenced_until_ms),
{
    let ghost all = pending.deep_view();
    let mut critical = false;
    let mut message = String::new();
    let mut i: usize = 0;
    assert(message@ =~= Seq::<char>::empty());
    while i < pending.len()
        invariant
            i <= pending@.len(),
            all == pending.deep_view(),
            critical == exists|k: int| 0 <= k < i && (#[trigger] all[k]).critical,
            message@ == lines_of(
                all,
                if i < 4 {
                    i as nat
                } else {
                    4
                },
            ),
        decreases pending@.len() - i,
    {
        assert(all[i as int] == pending@[i as int]@);
        if pending[i].critical {
            critical = true;
        }
        if i < 4 {
            if i > 0 {
                message.append("\n");
            }
            message.append(pending[i].message.as_str());
            assert(message@ =~= lines_of(all, (i + 1) as nat));
        }
        i = i + 1;
    }
    Announcement {
        title: if critical {
            "MSI PSU critical alert".to_owned()
        } else {
            "MSI PSU warning".to_owned()
        },
        message,
        critical,
        sound: !silent && now_ms >= silenced_until_ms,
    }
}

/// Why sounds were not silenced.
#[derive(Debug, Clone, Copy, PartialEq, Eq, Structural)]
pub enum SilenceError {
    /// The time is longer than a day.
    TooLong,
}

impl SilenceError {
    /// The words in which the error is reported.
    pub fn message(&self) -> (words: &'static str)
        ensures
            words@ == "silence must be at most 24 hours"@,
    {
        "silence must be at most 24 hours"
    }
}

/// Until when sounds are silent that are silenced now for some minutes.
pub fn silence(now_ms: i64, minutes: u32) -> (r: Result<i64, SilenceError>)
    requires
        now_ms <= i64::MAX - 86_400_000,
    ensures
        if minutes <= 1440 {
            r matches Ok(until) && until == now_ms + minutes * 60_000
        } else {
            r == Err::<i64, SilenceError>(SilenceError::TooLong)
        },
{
    if minutes > 1440 {
        return Err(SilenceError::TooLong);
    }
    Ok(now_ms + minutes as i64 * 60_000)
}

/// The end of a silence as it is stored.
pub fn write_silence(until_ms: i64) -> (words: String)
    ensures
        words@ == text::signed(until_ms as int),
{
    let mut words = String::new();
    text::push_signed(&mut words, until_ms as i128);
    assert(words@ =~= text::signed(until_ms as int));
    words
}

/// The end of a silence that is stored; what is no number silences nothing.
pub open spec fn silence_in(stored: Option<Seq<char>>) -> int {
    match stored {
        Some(words) => match text::whole_value(words) {
            Some(until) => until,
            None => 0,
        },
        None => 0,
    }
}

/// Reads the end of a silence that is stored.
pub fn read_silence(stored: Option<&str>) -> (until_ms: i64)
    ensures
        until_ms == silence_in(
            match stored {
                Some(words) => Some(words@),
                None => None,
            },
        ),
{
    match stored {
        Some(words) => match text::parse_i64(words) {
            Some(until) => until,
            None => 0,
        },
        None => 0,
    }
}

/// A silence that was stored is read back as it was.
pub proof fn silences_read_back(until_ms: i64)
    ensures
        silence_in(Some(text::signed(until_ms as int))) == until_ms,
{
    text::written_numbers_read_back(until_ms);
}

/// What is announced is not acknowledged, was announced less than three times, not within the last
/// thirty seconds, and, where it is a warning, was never delivered.
pub proof fn announcements_are_restrained(
    deliveries: Deliveries,
    notices: Seq<NoticeModel>,
    now_ms: i64,
    n: nat,
    i: int,
)
    requires
        0 <= i < due_of(deliveries, notices, now_ms, n).len(),
    ensures
        ({
            let notice = due_of(deliveries, notices, now_ms, n)[i];
            let d = delivery_of(deliveries, notice.id);
            &&& !notice.acknowledged
            &&& d.attempts < MAX_ATTEMPTS
            &&& now_ms - d.last_at_ms >= REPEAT_MS
            &&& notice.critical || !d.delivered
        }),
    decreases n,
{
    if n > 0 {
        let rest = due_of(deliveries, notices, now_ms, (n - 1) as nat);
        if i < rest.len() {
            announcements_are_restrained(deliveries, notices, now_ms, (n - 1) as nat, i);
        }
    }
}

/// An incident that was announced three times is not announced again while that is remembered.
pub proof fn three_attempts_are_enough(
    d: DeliveryModel,
    critical: bool,
    now_ms: i64,
    at: (i64, i64, i64),
    errors: (Option<Seq<char>>, Option<Seq<char>>, Option<Seq<char>>),
)
    ensures
        !d.attempted(at.0, errors.0).attempted(at.1, errors.1).attempted(at.2, errors.2).is_due(
            critical,
            now_ms,
        ),
{
}

/// A warning that was delivered is not announced again while that is remembered.
pub proof fn delivered_warnings_are_not_repeated(d: DeliveryModel, at_ms: i64, now_ms: i64)
    ensures
        !d.attempted(at_ms, None).is_due(false, now_ms),
{
}

/// No more announcements are remembered than there may be, and none that is too old.
pub proof fn memory_of_announcements_is_bounded(deliveries: Deliveries, now_ms: i64)
    ensures
        trimmed(remembered(deliveries, now_ms)).len() <= MAX_DELIVERIES,
        forall|i: int|
            #![trigger trimmed(remembered(deliveries, now_ms))[i]]
            0 <= i < trimmed(remembered(deliveries, now_ms)).len() ==> now_ms - trimmed(
                remembered(deliveries, now_ms),
            )[i].1.last_at_ms < RETENTION_MS,
{
    old_ones_are_forgotten(deliveries, now_ms);
    trimming_bounds(remembered(deliveries, now_ms));
    let all = remembered(deliveries, now_ms);
    assert forall|i: int| #![trigger trimmed(all)[i]] 0 <= i < trimmed(all).len() implies now_ms
        - trimmed(all)[i].1.last_at_ms < RETENTION_MS by {
        assert(all.contains(trimmed(all)[i]));
    }
}

/// What is too old is forgotten.
proof fn old_ones_are_forgotten(deliveries: Deliveries, now_ms: i64)
    ensures
        forall|i: int|
            #![trigger remembered(deliveries, now_ms)[i]]
            0 <= i < remembered(deliveries, now_ms).len() ==> now_ms - remembered(
                deliveries,
                now_ms,
            )[i].1.last_at_ms < RETENTION_MS,
    decreases deliveries.len(),
{
    if deliveries.len() > 0 {
        old_ones_are_forgotten(deliveries.drop_last(), now_ms);
        let rest = remembered(deliveries.drop_last(), now_ms);
        let all = remembered(deliveries, now_ms);
        assert forall|i: int| #![trigger all[i]] 0 <= i < all.len() implies now_ms
            - all[i].1.last_at_ms < RETENTION_MS by {
            if i < rest.len() {
                assert(all[i] == rest[i]);
            }
        }
    }
}

/// What is left is no more than there may be, and was there before.
proof fn trimming_bounds(deliveries: Deliveries)
    ensures
        trimmed(deliveries).len() <= MAX_DELIVERIES,
        forall|i: int|
            #![trigger trimmed(deliveries)[i]]
            0 <= i < trimmed(deliveries).len() ==> deliveries.contains(trimmed(deliveries)[i]),
    decreases deliveries.len(),
{
    if deliveries.len() > MAX_DELIVERIES {
        oldest_is_one(deliveries, deliveries.len());
        let at = oldest(deliveries, deliveries.len());
        let rest = deliveries.remove(at);
        trimming_bounds(rest);
        let left = trimmed(deliveries);
        assert forall|i: int| #![trigger left[i]] 0 <= i < left.len() implies deliveries.contains(
            left[i],
        ) by {
            assert(rest.contains(left[i]));
            let k = choose|k: int| 0 <= k < rest.len() && rest[k] == left[i];
            let from = if k < at { k } else { k + 1 };
            assert(deliveries[from] == left[i]);
        }
    }
}

/// One round of the notifier: when it looks, at which incidents, and what became of announcing
/// those that were due.
pub struct Round {
    pub at_ms: i64,
    pub notices: Seq<NoticeModel>,
    pub error: Option<Seq<char>>,
}

/// One of some incidents has this identifier.
pub open spec fn names(list: Seq<NoticeModel>, id: Seq<char>) -> bool {
    exists|k: int| 0 <= k < list.len() && (#[trigger] list[k]).id == id
}

impl Round {
    /// The incidents that are announced.
    pub open spec fn pending(self, deliveries: Deliveries) -> Seq<NoticeModel> {
        due_of(deliveries, self.notices, self.at_ms, self.notices.len())
    }

    /// The table after a round: an announcement is remembered.
    pub open spec fn leaves(self, deliveries: Deliveries) -> Deliveries {
        let looked = entered(deliveries, self.notices, self.notices.len());
        let pending = self.pending(deliveries);
        if pending.len() == 0 {
            looked
        } else {
            trimmed(
                remembered(
                    attempted_through(looked, pending, self.at_ms, self.error, pending.len()),
                    self.at_ms,
                ),
            )
        }
    }
}

/// The table after the first `n` rounds.
pub open spec fn after_rounds(start: Deliveries, rounds: Seq<Round>, n: nat) -> Deliveries
    decreases n,
{
    if n == 0 {
        start
    } else {
        rounds[n - 1].leaves(after_rounds(start, rounds, (n - 1) as nat))
    }
}

/// A round announces an incident.
pub open spec fn announces(start: Deliveries, rounds: Seq<Round>, id: Seq<char>, n: int) -> bool {
    names(rounds[n].pending(after_rounds(start, rounds, n as nat)), id)
}

/// The incident is remembered before a round.
pub open spec fn remembers(start: Deliveries, rounds: Seq<Round>, id: Seq<char>, n: int) -> bool {
    ordered_map::holds(after_rounds(start, rounds, n as nat), id)
}

/// How many of the first `n` rounds announce an incident.
pub open spec fn times_announced(
    start: Deliveries,
    rounds: Seq<Round>,
    id: Seq<char>,
    n: nat,
) -> nat
    decreases n,
{
    if n == 0 {
        0
    } else if announces(start, rounds, id, n - 1) {
        times_announced(start, rounds, id, (n - 1) as nat) + 1
    } else {
        times_announced(start, rounds, id, (n - 1) as nat)
    }
}

/// Forgetting announcements keeps the rest in order.
proof fn remembering_keeps_order(deliveries: Deliveries, now_ms: i64)
    requires
        ordered_map::ascending(deliveries),
    ensures
        ordered_map::ascending(remembered(deliveries, now_ms)),
        forall|i: int|
            #![trigger remembered(deliveries, now_ms)[i]]
            0 <= i < remembered(deliveries, now_ms).len() ==> deliveries.contains(
                remembered(deliveries, now_ms)[i],
            ),
    decreases deliveries.len(),
{
    if deliveries.len() > 0 {
        let front = deliveries.drop_last();
        let rest = remembered(front, now_ms);
        let all = remembered(deliveries, now_ms);
        remembering_keeps_order(front, now_ms);
        assert forall|i: int| 0 <= i < rest.len() implies exists|k: int|
            0 <= k < front.len() && (#[trigger] deliveries[k]) == #[trigger] rest[i] by {
            assert(front.contains(rest[i]));
            let k = choose|k: int| 0 <= k < front.len() && front[k] == rest[i];
            assert(deliveries[k] == rest[i]);
        }
        assert forall|i: int| #![trigger all[i]] 0 <= i < all.len() implies deliveries.contains(
            all[i],
        ) by {
            if i < rest.len() {
                assert(all[i] == rest[i]);
            } else {
                assert(deliveries.last() == all[i]);
            }
        }
    }
}

/// Forgetting the oldest announcements keeps the rest in order.
proof fn trimming_keeps_order(deliveries: Deliveries)
    requires
        ordered_map::ascending(deliveries),
    ensures
        ordered_map::ascending(trimmed(deliveries)),
    decreases deliveries.len(),
{
    if deliveries.len() > MAX_DELIVERIES {
        oldest_is_one(deliveries, deliveries.len());
        let at = oldest(deliveries, deliveries.len());
        let rest = deliveries.remove(at);
        assert forall|i: int, j: int| 0 <= i < j < rest.len() implies text::precedes(
            (#[trigger] rest[i]).0,
            (#[trigger] rest[j]).0,
        ) by {
            let a = if i < at { i } else { i + 1 };
            let b = if j < at { j } else { j + 1 };
            assert(rest[i] == deliveries[a] && rest[j] == deliveries[b]);
        }
        trimming_keeps_order(rest);
    }
}

/// What is left of a table has what it had.
proof fn kept_entries_agree(all: Deliveries, left: Deliveries, id: Seq<char>)
    requires
        ordered_map::ascending(all),
        ordered_map::ascending(left),
        forall|i: int| #![trigger left[i]] 0 <= i < left.len() ==> all.contains(left[i]),
        ordered_map::holds(left, id),
    ensures
        delivery_of(left, id) == delivery_of(all, id),
{
    let i = choose|i: int| 0 <= i < left.len() && (#[trigger] left[i]).0 == id;
    ordered_map::unique_key(left, id, i);
    assert(all.contains(left[i]));
    let k = choose|k: int| 0 <= k < all.len() && all[k] == left[i];
    ordered_map::unique_key(all, id, k);
}

/// Attempts are counted for those incidents that are announced, and for no other.
proof fn attempts_are_counted(
    deliveries: Deliveries,
    pending: Seq<NoticeModel>,
    now_ms: i64,
    error: Option<Seq<char>>,
    n: nat,
    id: Seq<char>,
)
    requires
        ordered_map::ascending(deliveries),
        n <= pending.len(),
    ensures
        ordered_map::ascending(attempted_through(deliveries, pending, now_ms, error, n)),
        ({
            let before = delivery_of(deliveries, id);
            let after = delivery_of(attempted_through(deliveries, pending, now_ms, error, n), id);
            if names(pending.take(n as int), id) {
                &&& before.attempts < 255 ==> after.attempts > before.attempts
                &&& after.attempts >= before.attempts
                &&& after.last_at_ms == now_ms
                &&& after.delivered == (error is None)
                &&& after.error == error
            } else {
                after == before
            }
        }),
    decreases n,
{
    if n > 0 {
        let m = (n - 1) as nat;
        let rest = attempted_through(deliveries, pending, now_ms, error, m);
        let last = pending[m as int].id;
        attempts_are_counted(deliveries, pending, now_ms, error, m, id);
        ordered_map::put_is_a_map_update(
            rest,
            last,
            delivery_of(rest, last).attempted(now_ms, error),
        );
        let shorter = pending.take(m as int);
        let longer = pending.take(n as int);
        if names(shorter, id) {
            let k = choose|k: int| 0 <= k < shorter.len() && (#[trigger] shorter[k]).id == id;
            assert(longer[k].id == id);
        }
        if names(longer, id) && id != last {
            let k = choose|k: int| 0 <= k < longer.len() && (#[trigger] longer[k]).id == id;
            assert(longer[m as int].id == last);
            assert(shorter[k].id == id);
        }
        if id == last {
            assert(longer[m as int].id == id);
        }
    } else {
        assert(pending.take(0).len() == 0);
    }
}

/// What a round does to what is remembered of an incident.
proof fn round_is_remembered(deliveries: Deliveries, round: Round, id: Seq<char>)
    requires
        ordered_map::ascending(deliveries),
    ensures
        ordered_map::ascending(round.leaves(deliveries)),
        ordered_map::holds(round.leaves(deliveries), id) ==> {
            let before = delivery_of(deliveries, id);
            let after = delivery_of(round.leaves(deliveries), id);
            if names(round.pending(deliveries), id) {
                &&& after.attempts > before.attempts
                &&& after.last_at_ms == round.at_ms
                &&& after.delivered == (round.error is None)
                &&& after.error == round.error
            } else {
                after == before
            }
        },
{
    let looked = entered(deliveries, round.notices, round.notices.len());
    let pending = round.pending(deliveries);
    entering_changes_nothing(deliveries, round.notices, round.notices.len(), id);
    if pending.len() > 0 {
        let tried = attempted_through(looked, pending, round.at_ms, round.error, pending.len());
        let recent = remembered(tried, round.at_ms);
        attempts_are_counted(looked, pending, round.at_ms, round.error, pending.len(), id);
        assert(pending.take(pending.len() as int) =~= pending);
        remembering_keeps_order(tried, round.at_ms);
        trimming_keeps_order(recent);
        trimming_bounds(recent);
        let left = trimmed(recent);
        if ordered_map::holds(left, id) {
            assert forall|i: int| #![trigger left[i]] 0 <= i < left.len() implies tried.contains(
                left[i],
            ) by {
                assert(recent.contains(left[i]));
                let k = choose|k: int| 0 <= k < recent.len() && recent[k] == left[i];
                assert(tried.contains(recent[k]));
            }
            kept_entries_agree(tried, left, id);
        }
        if names(pending, id) {
            let k = choose|k: int| 0 <= k < pending.len() && (#[trigger] pending[k]).id == id;
            announcements_are_restrained(
                deliveries,
                round.notices,
                round.at_ms,
                round.notices.len(),
                k,
            );
        }
    }
}

/// Rounds keep the table in order.
proof fn rounds_keep_order(start: Deliveries, rounds: Seq<Round>, n: nat)
    requires
        ordered_map::ascending(start),
    ensures
        ordered_map::ascending(after_rounds(start, rounds, n)),
    decreases n,
{
    if n > 0 {
        rounds_keep_order(start, rounds, (n - 1) as nat);
        round_is_remembered(
            after_rounds(start, rounds, (n - 1) as nat),
            rounds[n - 1],
            Seq::empty(),
        );
    }
}

/// A round that announces an incident may do so by what is remembered of it.
proof fn announcing_is_restrained(start: Deliveries, rounds: Seq<Round>, id: Seq<char>, n: nat)
    requires
        announces(start, rounds, id, n as int),
    ensures
        ({
            let d = delivery_of(after_rounds(start, rounds, n), id);
            let notices = rounds[n as int].notices;
            &&& d.attempts < MAX_ATTEMPTS
            &&& rounds[n as int].at_ms - d.last_at_ms >= REPEAT_MS
            &&& exists|k: int|
                0 <= k < notices.len() && (#[trigger] notices[k]).id == id
                    && !notices[k].acknowledged && (notices[k].critical || !d.delivered)
        }),
{
    let deliveries = after_rounds(start, rounds, n);
    let round = rounds[n as int];
    let pending = round.pending(deliveries);
    let k = choose|k: int| 0 <= k < pending.len() && (#[trigger] pending[k]).id == id;
    announcements_are_restrained(deliveries, round.notices, round.at_ms, round.notices.len(), k);
    due_ones_are_looked_at(deliveries, round.notices, round.at_ms, round.notices.len(), k);
    assert(round.notices.contains(pending[k]));
    let from = choose|i: int| 0 <= i < round.notices.len() && round.notices[i] == pending[k];
    assert(round.notices[from].id == id);
}

/// What is due is one of the incidents that are looked at.
proof fn due_ones_are_looked_at(
    deliveries: Deliveries,
    notices: Seq<NoticeModel>,
    now_ms: i64,
    n: nat,
    i: int,
)
    requires
        n <= notices.len(),
        0 <= i < due_of(deliveries, notices, now_ms, n).len(),
    ensures
        notices.contains(due_of(deliveries, notices, now_ms, n)[i]),
    decreases n,
{
    if n > 0 {
        let rest = due_of(deliveries, notices, now_ms, (n - 1) as nat);
        if i < rest.len() {
            due_ones_are_looked_at(deliveries, notices, now_ms, (n - 1) as nat, i);
        } else {
            assert(notices[n - 1] == due_of(deliveries, notices, now_ms, n)[i]);
        }
    }
}

/// As long as it is remembered that an incident was announced, the attempts count every round that
/// announced it.
proof fn every_announcement_counts(start: Deliveries, rounds: Seq<Round>, id: Seq<char>, n: nat)
    requires
        ordered_map::ascending(start),
        forall|j: int|
            0 < j <= n && times_announced(start, rounds, id, j as nat) > 0 ==> #[trigger] remembers(
                start,
                rounds,
                id,
                j,
            ),
    ensures
        times_announced(start, rounds, id, n) <= delivery_of(
            after_rounds(start, rounds, n),
            id,
        ).attempts,
    decreases n,
{
    if n > 0 {
        let m = (n - 1) as nat;
        every_announcement_counts(start, rounds, id, m);
        rounds_keep_order(start, rounds, m);
        round_is_remembered(after_rounds(start, rounds, m), rounds[m as int], id);
        if times_announced(start, rounds, id, n) > 0 {
            assert(remembers(start, rounds, id, n as int));
        }
    }
}

/// However often the notifier looks and at whatever, it announces an incident at most three times,
/// as long as it is remembered that it was announced.
pub proof fn an_incident_is_announced_three_times_at_most(
    start: Deliveries,
    rounds: Seq<Round>,
    id: Seq<char>,
    n: nat,
)
    requires
        ordered_map::ascending(start),
        forall|j: int|
            0 < j < n && times_announced(start, rounds, id, j as nat) > 0 ==> #[trigger] remembers(
                start,
                rounds,
                id,
                j,
            ),
    ensures
        times_announced(start, rounds, id, n) <= MAX_ATTEMPTS,
    decreases n,
{
    if n > 0 {
        let m = (n - 1) as nat;
        an_incident_is_announced_three_times_at_most(start, rounds, id, m);
        if announces(start, rounds, id, m as int) {
            every_announcement_counts(start, rounds, id, m);
            announcing_is_restrained(start, rounds, id, m);
        }
    }
}

/// Since an announcement the last attempt was not before it.
proof fn last_attempt_is_not_before(
    start: Deliveries,
    rounds: Seq<Round>,
    id: Seq<char>,
    a: nat,
    n: nat,
)
    requires
        ordered_map::ascending(start),
        a < n,
        announces(start, rounds, id, a as int),
        forall|j: int| a < j <= n ==> #[trigger] remembers(start, rounds, id, j),
    ensures
        delivery_of(after_rounds(start, rounds, n), id).last_at_ms >= rounds[a as int].at_ms,
    decreases n,
{
    let m = (n - 1) as nat;
    assert(remembers(start, rounds, id, n as int));
    rounds_keep_order(start, rounds, m);
    round_is_remembered(after_rounds(start, rounds, m), rounds[m as int], id);
    if a < m {
        last_attempt_is_not_before(start, rounds, id, a, m);
        if announces(start, rounds, id, m as int) {
            announcing_is_restrained(start, rounds, id, m);
        }
    }
}

/// Between any two announcements of an incident lie at least thirty seconds, as long as it is
/// remembered that it was announced.
pub proof fn announcements_keep_their_distance(
    start: Deliveries,
    rounds: Seq<Round>,
    id: Seq<char>,
    a: nat,
    b: nat,
)
    requires
        ordered_map::ascending(start),
        a < b,
        announces(start, rounds, id, a as int),
        announces(start, rounds, id, b as int),
        forall|j: int| a < j <= b ==> #[trigger] remembers(start, rounds, id, j),
    ensures
        rounds[b as int].at_ms - rounds[a as int].at_ms >= REPEAT_MS,
{
    last_attempt_is_not_before(start, rounds, id, a, b);
    announcing_is_restrained(start, rounds, id, b);
}

/// While an incident is acknowledged it is not announced.
pub proof fn acknowledged_incidents_stay_quiet(
    start: Deliveries,
    rounds: Seq<Round>,
    id: Seq<char>,
    n: nat,
)
    requires
        forall|k: int|
            0 <= k < rounds[n as int].notices.len() && (
            #[trigger] rounds[n as int].notices[k]).id == id
                ==> rounds[n as int].notices[k].acknowledged,
    ensures
        !announces(start, rounds, id, n as int),
{
    if announces(start, rounds, id, n as int) {
        announcing_is_restrained(start, rounds, id, n);
    }
}

/// Nothing that a round looks at under an identifier is critical.
pub open spec fn is_warning(round: Round, id: Seq<char>) -> bool {
    forall|k: int|
        0 <= k < round.notices.len() && (#[trigger] round.notices[k]).id == id
            ==> !round.notices[k].critical
}

/// A delivered warning stays delivered.
proof fn delivered_warnings_stay_delivered(
    start: Deliveries,
    rounds: Seq<Round>,
    id: Seq<char>,
    a: nat,
    n: nat,
)
    requires
        ordered_map::ascending(start),
        a < n,
        announces(start, rounds, id, a as int),
        rounds[a as int].error is None,
        forall|j: int| a < j <= n ==> #[trigger] remembers(start, rounds, id, j),
        forall|j: int| a < j < n ==> is_warning(#[trigger] rounds[j], id),
    ensures
        delivery_of(after_rounds(start, rounds, n), id).delivered,
    decreases n,
{
    let m = (n - 1) as nat;
    assert(remembers(start, rounds, id, n as int));
    rounds_keep_order(start, rounds, m);
    round_is_remembered(after_rounds(start, rounds, m), rounds[m as int], id);
    if a < m {
        delivered_warnings_stay_delivered(start, rounds, id, a, m);
        if announces(start, rounds, id, m as int) {
            announcing_is_restrained(start, rounds, id, m);
            assert(is_warning(rounds[m as int], id));
        }
    }
}

/// A warning that was delivered is never announced again, as long as it is remembered.
pub proof fn a_warning_is_delivered_once(
    start: Deliveries,
    rounds: Seq<Round>,
    id: Seq<char>,
    a: nat,
    b: nat,
)
    requires
        ordered_map::ascending(start),
        a < b,
        announces(start, rounds, id, a as int),
        rounds[a as int].error is None,
        forall|j: int| a < j <= b ==> #[trigger] remembers(start, rounds, id, j),
        forall|j: int| a < j <= b ==> is_warning(#[trigger] rounds[j], id),
    ensures
        !announces(start, rounds, id, b as int),
{
    delivered_warnings_stay_delivered(start, rounds, id, a, b);
    if announces(start, rounds, id, b as int) {
        announcing_is_restrained(start, rounds, id, b);
        assert(is_warning(rounds[b as int], id));
    }
}

/// What became of an announcement is remembered with it: when it was tried, whether it was
/// delivered, and why not.
pub proof fn outcomes_are_remembered(
    start: Deliveries,
    rounds: Seq<Round>,
    id: Seq<char>,
    n: nat,
)
    requires
        ordered_map::ascending(start),
        announces(start, rounds, id, n as int),
        remembers(start, rounds, id, (n + 1) as int),
    ensures
        ({
            let d = delivery_of(after_rounds(start, rounds, (n + 1) as nat), id);
            &&& d.last_at_ms == rounds[n as int].at_ms
            &&& d.delivered == (rounds[n as int].error is None)
            &&& d.error == rounds[n as int].error
        }),
{
    rounds_keep_order(start, rounds, n);
    round_is_remembered(after_rounds(start, rounds, n), rounds[n as int], id);
}

/// Where nothing is due, all that is looked at was remembered before.
proof fn nothing_due_adds_nothing(
    deliveries: Deliveries,
    notices: Seq<NoticeModel>,
    now_ms: i64,
    n: nat,
)
    requires
        ordered_map::ascending(deliveries),
        now_ms >= REPEAT_MS,
        due_of(deliveries, notices, now_ms, n).len() == 0,
    ensures
        entered(deliveries, notices, n) == deliveries,
    decreases n,
{
    if n > 0 {
        nothing_due_adds_nothing(deliveries, notices, now_ms, (n - 1) as nat);
        let notice = notices[n - 1];
        if !notice.acknowledged {
            assert(!delivery_of(deliveries, notice.id).is_due(notice.critical, now_ms));
            assert(ordered_map::lookup(deliveries, notice.id) is Some);
            ordered_map::put_same(deliveries, notice.id, delivery_of(deliveries, notice.id));
        }
    }
}

/// However often the notifier looks, no more than 4096 announcements are remembered.
///
/// The clock has passed the first thirty seconds of 1970 at every round.
pub proof fn rounds_keep_memory_bounded(start: Deliveries, rounds: Seq<Round>, n: nat)
    requires
        ordered_map::ascending(start),
        start.len() <= MAX_DELIVERIES,
        n <= rounds.len(),
        forall|j: int| 0 <= j < rounds.len() ==> (#[trigger] rounds[j]).at_ms >= REPEAT_MS,
    ensures
        after_rounds(start, rounds, n).len() <= MAX_DELIVERIES,
    decreases n,
{
    if n > 0 {
        let before = after_rounds(start, rounds, (n - 1) as nat);
        let round = rounds[n - 1];
        rounds_keep_memory_bounded(start, rounds, (n - 1) as nat);
        rounds_keep_order(start, rounds, (n - 1) as nat);
        if round.pending(before).len() == 0 {
            nothing_due_adds_nothing(before, round.notices, round.at_ms, round.notices.len());
        } else {
            let looked = entered(before, round.notices, round.notices.len());
            let pending = round.pending(before);
            trimming_bounds(
                remembered(
                    attempted_through(looked, pending, round.at_ms, round.error, pending.len()),
                    round.at_ms,
                ),
            );
        }
    }
}

/// The limits of announcements: three attempts, half a minute apart; thirty days and 4096 incidents are
/// remembered.
pub proof fn announcements_have_limits()
    ensures
        MAX_ATTEMPTS == 3,
        REPEAT_MS == 30_000,
        RETENTION_MS == 2_592_000_000,
        MAX_DELIVERIES == 4096,
{
}

/// An incident of which nothing is remembered was neither announced nor tried.
pub proof fn unknown_incidents_were_not_announced(deliveries: Deliveries, id: Seq<char>)
    ensures
        match ordered_map::lookup(deliveries, id) {
            Some(d) => delivery_of(deliveries, id) == d,
            None => delivery_of(deliveries, id) == (DeliveryModel {
                delivered: false,
                attempts: 0,
                last_at_ms: 0,
                error: None,
            }),
        },
{
}

/// What is announced are, in their order, all incidents that are not acknowledged, were announced less
/// than three times, not within the last thirty seconds, and, where they are warnings, never delivered.
pub proof fn all_due_incidents_are_announced(
    deliveries: Deliveries,
    notices: Seq<NoticeModel>,
    now_ms: i64,
)
    ensures
        due_of(deliveries, notices, now_ms, notices.len()) == notices.filter(
            |x: NoticeModel|
                !x.acknowledged && delivery_of(deliveries, x.id).attempts < 3 && now_ms
                    - delivery_of(deliveries, x.id).last_at_ms >= 30_000 && (x.critical
                    || !delivery_of(deliveries, x.id).delivered),
        ),
    decreases notices.len(),
{
    reveal(Seq::filter);
    if notices.len() > 0 {
        all_due_incidents_are_announced(deliveries, notices.drop_last(), now_ms);
        due_alike(deliveries, notices, notices.drop_last(), now_ms, (notices.len() - 1) as nat);
    } else {
        assert(due_of(deliveries, notices, now_ms, 0) =~= notices);
    }
}

/// Incidents that begin alike are announced alike.
proof fn due_alike(
    deliveries: Deliveries,
    a: Seq<NoticeModel>,
    b: Seq<NoticeModel>,
    now_ms: i64,
    n: nat,
)
    requires
        n <= a.len(),
        n <= b.len(),
        forall|i: int| 0 <= i < n ==> a[i] == b[i],
    ensures
        due_of(deliveries, a, now_ms, n) == due_of(deliveries, b, now_ms, n),
    decreases n,
{
    if n > 0 {
        due_alike(deliveries, a, b, now_ms, (n - 1) as nat);
    }
}

/// Looking at incidents enters those that are not acknowledged, and changes no announcement.
pub proof fn looking_changes_no_announcement(
    deliveries: Deliveries,
    notices: Seq<NoticeModel>,
    n: nat,
    id: Seq<char>,
)
    requires
        ordered_map::ascending(deliveries),
        n <= notices.len(),
    ensures
        delivery_of(entered(deliveries, notices, n), id) == delivery_of(deliveries, id),
        ordered_map::holds(entered(deliveries, notices, n), id) <==> ordered_map::holds(
            deliveries,
            id,
        ) || exists|i: int|
            0 <= i < n && (#[trigger] notices[i]).id == id && !notices[i].acknowledged,
    decreases n,
{
    entering_changes_nothing(deliveries, notices, n, id);
    if n > 0 {
        looking_changes_no_announcement(deliveries, notices, (n - 1) as nat, id);
        let rest = entered(deliveries, notices, (n - 1) as nat);
        entering_changes_nothing(deliveries, notices, (n - 1) as nat, id);
        ordered_map::put_is_a_map_update(
            rest,
            notices[n - 1].id,
            delivery_of(rest, notices[n - 1].id),
        );
        if notices[n - 1].id == id && !notices[n - 1].acknowledged {
            assert(notices[n - 1].id == id);
        }
    }
}

/// An announcement counts once for each incident in it, with its time and what became of it; nothing
/// changes for another incident.
pub proof fn announcements_count_once(
    deliveries: Deliveries,
    pending: Seq<NoticeModel>,
    now_ms: i64,
    error: Option<Seq<char>>,
    n: nat,
    id: Seq<char>,
)
    requires
        ordered_map::ascending(deliveries),
        n <= pending.len(),
        forall|i: int, j: int|
            0 <= i < j < pending.len() ==> (#[trigger] pending[i]).id != (#[trigger] pending[j]).id,
    ensures
        ({
            let before = delivery_of(deliveries, id);
            let after = ordered_map::lookup(
                attempted_through(deliveries, pending, now_ms, error, n),
                id,
            );
            if exists|i: int| 0 <= i < n && (#[trigger] pending[i]).id == id {
                &&& after matches Some(d)
                &&& d.attempts == if before.attempts < 255 {
                    before.attempts + 1
                } else {
                    255
                }
                &&& d.last_at_ms == now_ms
                &&& d.delivered <==> error is None
                &&& d.error == error
            } else {
                after == ordered_map::lookup(deliveries, id)
            }
        }),
    decreases n,
{
    if n > 0 {
        let m = (n - 1) as nat;
        let rest = attempted_through(deliveries, pending, now_ms, error, m);
        let last = pending[m as int].id;
        announcements_count_once(deliveries, pending, now_ms, error, m, id);
        attempts_are_counted(deliveries, pending, now_ms, error, m, id);
        ordered_map::put_is_a_map_update(
            rest,
            last,
            delivery_of(rest, last).attempted(now_ms, error),
        );
        if last == id {
            assert(pending[m as int].id == id);
            assert forall|i: int| 0 <= i < m implies (#[trigger] pending[i]).id != id by {
                assert(pending[i].id != pending[m as int].id);
            }
        }
    }
}

/// What is remembered are, in their order, the announcements of the last thirty days.
pub proof fn announcements_are_remembered_for_thirty_days(deliveries: Deliveries, now_ms: i64)
    ensures
        remembered(deliveries, now_ms) == deliveries.filter(
            |e: (Seq<char>, DeliveryModel)| now_ms - e.1.last_at_ms < 2_592_000_000,
        ),
    decreases deliveries.len(),
{
    reveal(Seq::filter);
    if deliveries.len() > 0 {
        announcements_are_remembered_for_thirty_days(deliveries.drop_last(), now_ms);
    } else {
        assert(remembered(deliveries, now_ms) =~= deliveries);
    }
}

/// Of too many announcements the newest 4096 are left: none that is forgotten is newer than one that is
/// left. Where there are not too many all are left.
pub proof fn the_newest_announcements_are_left(deliveries: Deliveries)
    ensures
        deliveries.len() <= 4096 ==> trimmed(deliveries) == deliveries,
        deliveries.len() > 4096 ==> trimmed(deliveries).len() == 4096,
        forall|i: int|
            0 <= i < trimmed(deliveries).len() ==> deliveries.contains(
                #[trigger] trimmed(deliveries)[i],
            ),
        forall|i: int, j: int|
            0 <= i < deliveries.len() && 0 <= j < trimmed(deliveries).len() ==> trimmed(
                deliveries,
            ).contains(#[trigger] deliveries[i]) || deliveries[i].1.last_at_ms <= (
            #[trigger] trimmed(deliveries)[j]).1.last_at_ms,
    decreases deliveries.len(),
{
    trimming_bounds(deliveries);
    let left = trimmed(deliveries);
    if deliveries.len() > 4096 {
        oldest_is_one(deliveries, deliveries.len());
        let at = oldest(deliveries, deliveries.len());
        let rest = deliveries.remove(at);
        the_newest_announcements_are_left(rest);
        assert forall|i: int, j: int|
            0 <= i < deliveries.len() && 0 <= j < left.len() implies left.contains(
            #[trigger] deliveries[i],
        ) || deliveries[i].1.last_at_ms <= (#[trigger] left[j]).1.last_at_ms by {
            if i == at {
                assert(deliveries.contains(left[j]));
                let k = choose|k: int| 0 <= k < deliveries.len() && deliveries[k] == left[j];
                assert(deliveries[at].1.last_at_ms <= deliveries[k].1.last_at_ms);
            } else {
                let from = if i < at { i } else { i - 1 };
                assert(rest[from] == deliveries[i]);
            }
        }
    } else {
        assert forall|i: int| 0 <= i < deliveries.len() implies left.contains(
            #[trigger] deliveries[i],
        ) by {
            assert(left[i] == deliveries[i]);
        }
    }
}

/// The lines of an announcement are the messages of its incidents, with a line feed between them.
pub proof fn announcements_have_a_line_for_each(pending: Seq<NoticeModel>, n: nat)
    requires
        n <= pending.len(),
    ensures
        lines_of(pending, n) == text::join(
            Seq::new(n, |i: int| pending[i].message),
            seq!['\n'],
        ),
    decreases n,
{
    let messages = Seq::new(n, |i: int| pending[i].message);
    if n > 1 {
        announcements_have_a_line_for_each(pending, (n - 1) as nat);
        assert(messages.drop_last() =~= Seq::new((n - 1) as nat, |i: int| pending[i].message));
        reveal_strlit("\n");
        assert("\n"@ =~= seq!['\n']);
    }
}

/// An announcement is critical where one of its incidents is, and its title says so.
pub proof fn titles_tell_what_is_critical(pending: Seq<NoticeModel>, more: NoticeModel)
    ensures
        title(true) == "MSI PSU critical alert"@,
        title(false) == "MSI PSU warning"@,
        !any_critical(Seq::empty()),
        any_critical(pending.push(more)) <==> any_critical(pending) || more.critical,
{
    let all = pending.push(more);
    if any_critical(pending) {
        let i = choose|i: int| 0 <= i < pending.len() && (#[trigger] pending[i]).critical;
        assert(all[i].critical);
    }
    if more.critical {
        assert(all[pending.len() as int].critical);
    }
    if any_critical(all) && !more.critical {
        let i = choose|i: int| 0 <= i < all.len() && (#[trigger] all[i]).critical;
        assert(pending[i].critical);
    }
}

/// What is no number silences nothing, and neither does what was never stored.
pub proof fn other_texts_silence_nothing(words: Seq<char>)
    requires
        text::whole_value(words) is None,
    ensures
        silence_in(Some(words)) == 0,
        silence_in(None) == 0,
{
}

} // verus!
