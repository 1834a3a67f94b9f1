//! From readings of the touch controller to gestures.
//!
//! The controller is polled. A contact begins with the first reading that
//! holds a point, follows the finger through later readings, and ends with the
//! first reading without a touch: it is then a tap or a swipe, by how far apart
//! its first and its last point are.
use vstd::prelude::*;

use crate::sqrt::approximate_sqrt;

verus! {

/// A finished gesture on the panel.
#[derive(Clone, Copy, Debug, PartialEq, Eq, Structural)]
pub enum GestureEvent {
    /// A tap, at the point where it began.
    Touch { x: u16, y: u16 },
    /// A swipe, from the point where it began to the last point seen.
    Swipe { start_x: u16, start_y: u16, end_x: u16, end_y: u16 },
}

/// Shortest distance, in pixels, between the ends of a swipe.
pub const MIN_SWIPE_DISTANCE: u16 = 30;

/// One reading of the touch controller.
#[derive(Clone, Copy, Debug)]
pub enum TouchRead {
    /// The controller reports a touch; `first` is the first of its points.
    Touched { first: Option<(u16, u16)> },
    /// The controller reports no touch.
    Released,
    /// The reading failed.
    Failed,
}

/// What a reading brings about.
#[derive(Clone, Copy, Debug, PartialEq, Eq, Structural)]
pub enum TouchAction {
    /// Nothing to do.
    Nothing,
    /// A contact began at this point.
    Started { x: u16, y: u16 },
    /// A contact ended: `gesture` is to be sent on. `distance` is how far
    /// apart its ends are, rounded down.
    Send { gesture: GestureEvent, distance: u16 },
}

/// A contact that has not ended yet: its first point and the last one seen.
pub struct Contact {
    pub start: (u16, u16),
    pub last: (u16, u16),
}

/// Square of the straight-line distance between two points.
pub open spec fn squared_distance(a: (u16, u16), b: (u16, u16)) -> nat {
    ((b.0 - a.0) * (b.0 - a.0) + (b.1 - a.1) * (b.1 - a.1)) as nat
}

/// The gesture that a contact from `start` to `end` is.
pub open spec fn gesture_between(start: (u16, u16), end: (u16, u16)) -> GestureEvent {
    if squared_distance(start, end) >= MIN_SWIPE_DISTANCE * MIN_SWIPE_DISTANCE {
        GestureEvent::Swipe { start_x: start.0, start_y: start.1, end_x: end.0, end_y: end.1 }
    } else {
        GestureEvent::Touch { x: start.0, y: start.1 }
    }
}

/// The squared distance between two points fits the 32-bit signed arithmetic
/// that measures it. Points less than 2^15 pixels apart in each direction
/// always do.
pub open spec fn in_reach(a: (u16, u16), b: (u16, u16)) -> bool {
    ||| -0x8000 < b.0 - a.0 < 0x8000 && -0x8000 < b.1 - a.1 < 0x8000
    ||| squared_distance(a, b) <= i32::MAX
}

/// The ends of the contact, if there is one, are in reach of each other.
pub open spec fn measurable(contact: Option<Contact>) -> bool {
    contact matches Some(c) ==> in_reach(c.start, c.last)
}

/// The contact after a reading.
pub open spec fn next_contact(contact: Option<Contact>, read: TouchRead) -> Option<Contact> {
    match read {
        TouchRead::Touched { first: Some(p) } => match contact {
            Some(c) => Some(Contact { start: c.start, last: p }),
            None => Some(Contact { start: p, last: p }),
        },
        TouchRead::Touched { first: None } => contact,
        TouchRead::Released => None,
        TouchRead::Failed => None,
    }
}

/// What a reading brings about.
pub open spec fn touch_action(contact: Option<Contact>, read: TouchRead) -> TouchAction {
    match (contact, read) {
        (None, TouchRead::Touched { first: Some(p) }) => TouchAction::Started { x: p.0, y: p.1 },
        (Some(c), TouchRead::Released) => TouchAction::Send {
            gesture: gesture_between(c.start, c.last),
            distance: crate::sqrt::floor_sqrt(squared_distance(c.start, c.last)) as u16,
        },
        _ => TouchAction::Nothing,
    }
}

/// The contact after a series of readings, the oldest first.
pub open spec fn contact_after(contact: Option<Contact>, reads: Seq<TouchRead>) -> Option<Contact>
    decreases reads.len(),
{
    if reads.len() == 0 {
        contact
    } else {
        next_contact(contact_after(contact, reads.drop_last()), reads.last())
    }
}

/// The last point that a series of readings reports; `first` if there is none.
pub open spec fn last_point(first: (u16, u16), reads: Seq<TouchRead>) -> (u16, u16)
    decreases reads.len(),
{
    if reads.len() == 0 {
        first
    } else if let TouchRead::Touched { first: Some(p) } = reads.last() {
        p
    } else {
        last_point(first, reads.drop_last())
    }
}

/// Points are in reach of each other exactly if their squared distance fits.
proof fn lemma_in_reach(a: (u16, u16), b: (u16, u16))
    ensures
        in_reach(a, b) <==> squared_distance(a, b) <= i32::MAX,
{
    let dx = b.0 - a.0;
    let dy = b.1 - a.1;
    assert(dx * dx >= 0 && dy * dy >= 0) by (nonlinear_arith);
    if -0x8000 < dx < 0x8000 && -0x8000 < dy < 0x8000 {
        assert(dx * dx <= 0x7fff * 0x7fff) by (nonlinear_arith)
            requires
                -0x8000 < dx < 0x8000,
        ;
        assert(dy * dy <= 0x7fff * 0x7fff) by (nonlinear_arith)
            requires
                -0x8000 < dy < 0x8000,
        ;
    }
}

/// Distance between two points, rounded down.
pub fn distance(start: (u16, u16), end: (u16, u16)) -> (d: u16)
    requires
        in_reach(start, end),
    ensures
        d == crate::sqrt::floor_sqrt(squared_distance(start, end)),
        crate::sqrt::is_floor_sqrt(squared_distance(start, end) as int, d as int),
{
    let dx: i32 = end.0 as i32 - start.0 as i32;
    let dy: i32 = end.1 as i32 - start.1 as i32;
    proof {
        lemma_in_reach(start, end);
        assert(dx * dx >= 0 && dy * dy >= 0) by (nonlinear_arith);
    }
    let distance_squared: u32 = (dx * dx + dy * dy) as u32;
    let root: u32 = approximate_sqrt(distance_squared);
    proof {
        assert(root < 0x1_0000) by (nonlinear_arith)
            requires
                root * root <= 0x7fff_ffff,
                root >= 0,
        ;
    }
    root as u16
}

/// Tells a tap from a swipe, by the first and the last point of a contact.
pub fn classify(start: (u16, u16), end: (u16, u16)) -> (action: (GestureEvent, u16))
    requires
        in_reach(start, end),
    ensures
        action.0 == gesture_between(start, end),
        action.1 == crate::sqrt::floor_sqrt(squared_distance(start, end)),
{
    let distance: u16 = distance(start, end);
    proof {
        crate::sqrt::lemma_floor_sqrt_reaches(
            squared_distance(start, end),
            distance as nat,
            MIN_SWIPE_DISTANCE as nat,
        );
    }
    let gesture = if distance >= MIN_SWIPE_DISTANCE {
        GestureEvent::Swipe { start_x: start.0, start_y: start.1, end_x: end.0, end_y: end.1 }
    } else {
        GestureEvent::Touch { x: start.0, y: start.1 }
    };
    (gesture, distance)
}

/// Follows contacts through the readings of the touch controller.
pub struct TouchTracker {
    touch_active: bool,
    touch_start: Option<(u16, u16)>,
    last_position: Option<(u16, u16)>,
}

impl View for TouchTracker {
    type V = Option<Contact>;

    closed spec fn view(&self) -> Option<Contact> {
        if self.touch_active {
            Some(Contact { start: self.touch_start->0, last: self.last_position->0 })
        } else {
            None
        }
    }
}

impl TouchTracker {
    /// Both points are known exactly while a contact is going on.
    #[verifier::type_invariant]
    spec fn inv(self) -> bool {
        &&& self.touch_start is Some <==> self.touch_active
        &&& self.last_position is Some <==> self.touch_active
    }

    /// A tracker with no contact going on.
    pub fn new() -> (tracker: Self)
        ensures
            tracker@ is None,
    {
        TouchTracker { touch_active: false, touch_start: None, last_position: None }
    }

    /// Whether the distance between the ends of the contact can be measured;
    /// a reading without a touch may be taken in only then.
    pub fn is_measurable(&self) -> (b: bool)
        ensures
            b == measurable(self@),
    {
        proof {
            use_type_invariant(self);
        }
        match (self.touch_start, self.last_position) {
            (Some(start), Some(last)) => {
                let dx: i64 = last.0 as i64 - start.0 as i64;
                let dy: i64 = last.1 as i64 - start.1 as i64;
                proof {
                    lemma_in_reach(start, last);
                    assert(0 <= dx * dx <= 0x1_0000_0000) by (nonlinear_arith)
                        requires
                            -0x1_0000 < dx < 0x1_0000,
                    ;
                    assert(0 <= dy * dy <= 0x1_0000_0000) by (nonlinear_arith)
                        requires
                            -0x1_0000 < dy < 0x1_0000,
                    ;
                }
                dx * dx + dy * dy <= i32::MAX as i64
            },
            _ => true,
        }
    }

    /// Takes in one reading.
    pub fn step(&mut self, read: TouchRead) -> (action: TouchAction)
        requires
            read is Released ==> measurable(old(self)@),
        ensures
            final(self)@ == next_contact(old(self)@, read),
            action == touch_action(old(self)@, read),
    {
        proof {
            use_type_invariant(&*self);
        }
        match read {
            TouchRead::Touched { first } => {
                if let Some(current_pos) = first {
                    if !self.touch_active {
                        *self = TouchTracker {
                            touch_active: true,
                            touch_start: Some(current_pos),
                            last_position: Some(current_pos),
                        };
                        return TouchAction::Started { x: current_pos.0, y: current_pos.1 };
                    }
                    self.last_position = Some(current_pos);
                }
                TouchAction::Nothing
            },
            TouchRead::Released => {
                let mut action = TouchAction::Nothing;
                if self.touch_active {
                    if let (Some(start), Some(end)) = (self.touch_start, self.last_position) {
                        let (gesture, distance) = classify(start, end);
                        action = TouchAction::Send { gesture, distance };
                    }
                    *self = TouchTracker::new();
                }
                action
            },
            TouchRead::Failed => {
                *self = TouchTracker::new();
                TouchAction::Nothing
            },
        }
    }
}

/// A contact is judged by its ends alone: from the reading that begins it, and
/// through any readings that still report a touch, its start stays the first
/// point and its last point is the latest one reported.
pub proof fn law_contact_keeps_its_start(first: (u16, u16), reads: Seq<TouchRead>)
    requires
        forall|i: int| 0 <= i < reads.len() ==> (#[trigger] reads[i]) is Touched,
    ensures
        contact_after(None, seq![TouchRead::Touched { first: Some(first) }] + reads) == Some(
            Contact { start: first, last: last_point(first, reads) },
        ),
    decreases reads.len(),
{
    let begin = TouchRead::Touched { first: Some(first) };
    let all = seq![begin] + reads;
    if reads.len() == 0 {
        assert(all.drop_last() =~= Seq::<TouchRead>::empty());
        assert(all.last() == begin);
        assert(contact_after(None, all.drop_last()) == None::<Contact>);
    } else {
        law_contact_keeps_its_start(first, reads.drop_last());
        assert(all.drop_last() =~= seq![begin] + reads.drop_last());
        assert(all.last() == reads.last());
        assert(reads[reads.len() - 1] is Touched);
    }
}

/// The release that ends a contact sends the gesture between its first and its
/// latest point.
pub proof fn law_release_sends_gesture(first: (u16, u16), reads: Seq<TouchRead>)
    requires
        forall|i: int| 0 <= i < reads.len() ==> (#[trigger] reads[i]) is Touched,
    ensures
        touch_action(
            contact_after(None, seq![TouchRead::Touched { first: Some(first) }] + reads),
            TouchRead::Released,
        ) matches TouchAction::Send { gesture, .. } && gesture == gesture_between(
            first,
            last_point(first, reads),
        ),
{
    law_contact_keeps_its_start(first, reads);
}

/// After a release or a failed reading no contact is going on, so the next
/// point begins a new one, and a further release sends nothing.
pub proof fn law_end_forgets_contact(contact: Option<Contact>, end: TouchRead, p: (u16, u16))
    requires
        end is Released || end is Failed,
    ensures
        next_contact(contact, end) is None,
        touch_action(next_contact(contact, end), TouchRead::Released) is Nothing,
        touch_action(next_contact(contact, end), TouchRead::Touched { first: Some(p) })
            == (TouchAction::Started { x: p.0, y: p.1 }),
        next_contact(next_contact(contact, end), TouchRead::Touched { first: Some(p) }) == Some(
            Contact { start: p, last: p },
        ),
{
}

/// A gesture is sent only by a reading without a touch that ends a contact.
/// In particular a failed reading sends none: its contact is dropped.
pub proof fn law_only_release_sends(contact: Option<Contact>, read: TouchRead)
    ensures
        touch_action(contact, read) is Send <==> contact is Some && read is Released,
{
}

/// Whether a contact is a swipe depends only on how far apart its ends are,
/// not on the direction.
pub proof fn law_swipe_is_undirected(a: (u16, u16), b: (u16, u16))
    ensures
        gesture_between(a, b) is Swipe <==> gesture_between(b, a) is Swipe,
{
    assert((b.0 - a.0) * (b.0 - a.0) == (a.0 - b.0) * (a.0 - b.0)) by (nonlinear_arith);
    assert((b.1 - a.1) * (b.1 - a.1) == (a.1 - b.1) * (a.1 - b.1)) by (nonlinear_arith);
}

/// Twelve-bit coordinates, such as the touch controller reports, are always
/// in reach of each other.
pub proof fn law_panel_points_measurable(contact: Contact)
    requires
        contact.start.0 < 4096,
        contact.start.1 < 4096,
        contact.last.0 < 4096,
        contact.last.1 < 4096,
    ensures
        measurable(Some(contact)),
        squared_distance(contact.start, contact.last) <= i32::MAX,
{
    lemma_in_reach(contact.start, contact.last);
}

/// A contact is a swipe with exactly its ends if these are 30 pixels or more
/// apart, by the theorem of Pythagoras, and a touch at its start otherwise.
pub proof fn law_thirty_pixels_make_a_swipe(start: (u16, u16), end: (u16, u16))
    ensures
        (end.0 - start.0) * (end.0 - start.0) + (end.1 - start.1) * (end.1 - start.1) >= 900
            ==> gesture_between(start, end) == (GestureEvent::Swipe {
            start_x: start.0,
            start_y: start.1,
            end_x: end.0,
            end_y: end.1,
        }),
        (end.0 - start.0) * (end.0 - start.0) + (end.1 - start.1) * (end.1 - start.1) < 900
            ==> gesture_between(start, end) == (GestureEvent::Touch { x: start.0, y: start.1 }),
{
    assert((end.0 - start.0) * (end.0 - start.0) >= 0) by (nonlinear_arith);
    assert((end.1 - start.1) * (end.1 - start.1) >= 0) by (nonlinear_arith);
}

/// Moving farther never turns a swipe into a touch.
pub proof fn law_farther_is_still_a_swipe(
    a: (u16, u16),
    b: (u16, u16),
    c: (u16, u16),
    d: (u16, u16),
)
    requires
        gesture_between(a, b) is Swipe,
        (b.0 - a.0) * (b.0 - a.0) + (b.1 - a.1) * (b.1 - a.1) <= (d.0 - c.0) * (d.0 - c.0) + (d.1
            - c.1) * (d.1 - c.1),
    ensures
        gesture_between(c, d) is Swipe,
{
    law_thirty_pixels_make_a_swipe(a, b);
    law_thirty_pixels_make_a_swipe(c, d);
}

/// The measured distance is the straight-line distance between the points,
/// rounded down.
pub proof fn law_distance_brackets(start: (u16, u16), end: (u16, u16))
    ensures
        crate::sqrt::floor_sqrt(squared_distance(start, end)) * crate::sqrt::floor_sqrt(
            squared_distance(start, end),
        ) <= (end.0 - start.0) * (end.0 - start.0) + (end.1 - start.1) * (end.1 - start.1),
        (end.0 - start.0) * (end.0 - start.0) + (end.1 - start.1) * (end.1 - start.1) < (
        crate::sqrt::floor_sqrt(squared_distance(start, end)) + 1) * (crate::sqrt::floor_sqrt(
            squared_distance(start, end),
        ) + 1),
{
    assert((end.0 - start.0) * (end.0 - start.0) >= 0) by (nonlinear_arith);
    assert((end.1 - start.1) * (end.1 - start.1) >= 0) by (nonlinear_arith);
    crate::sqrt::law_root_brackets_its_number(squared_distance(start, end));
}

/// Two points are in reach of each other exactly if the square of their
/// distance is below 2^31.
pub proof fn law_reach(a: (u16, u16), b: (u16, u16))
    ensures
        in_reach(a, b) <==> (b.0 - a.0) * (b.0 - a.0) + (b.1 - a.1) * (b.1 - a.1) < 0x8000_0000,
        measurable(Some(Contact { start: a, last: b })) <==> in_reach(a, b),
        measurable(None),
{
    assert((b.0 - a.0) * (b.0 - a.0) >= 0) by (nonlinear_arith);
    assert((b.1 - a.1) * (b.1 - a.1) >= 0) by (nonlinear_arith);
    lemma_in_reach(a, b);
}

/// The release of a contact sends a swipe from its start to its last point if
/// these are 30 pixels or more apart and a touch at its start otherwise, with
/// their distance rounded down.
pub proof fn law_release_is_judged_by_distance(contact: Contact)
    requires
        (contact.last.0 - contact.start.0) * (contact.last.0 - contact.start.0) + (contact.last.1
            - contact.start.1) * (contact.last.1 - contact.start.1) < 0x8000_0000,
    ensures
        touch_action(Some(contact), TouchRead::Released) matches TouchAction::Send {
            gesture,
            distance,
        } && {
            let sum = (contact.last.0 - contact.start.0) * (contact.last.0 - contact.start.0) + (
            contact.last.1 - contact.start.1) * (contact.last.1 - contact.start.1);
            &&& sum >= 900 ==> gesture == (GestureEvent::Swipe {
                start_x: contact.start.0,
                start_y: contact.start.1,
                end_x: contact.last.0,
                end_y: contact.last.1,
            })
            &&& sum < 900 ==> gesture == (GestureEvent::Touch {
                x: contact.start.0,
                y: contact.start.1,
            })
            &&& distance * distance <= sum
            &&& sum < (distance + 1) * (distance + 1)
        },
{
    law_thirty_pixels_make_a_swipe(contact.start, contact.last);
    law_distance_brackets(contact.start, contact.last);
    let root = crate::sqrt::floor_sqrt(squared_distance(contact.start, contact.last));
    assert(root < 0x1_0000) by (nonlinear_arith)
        requires
            root * root < 0x8000_0000,
            root >= 0,
    ;
}

/// What each reading does to a contact, and what it brings about but for the
/// release of a contact.
pub proof fn law_readings_move_contacts(contact: Contact, p: (u16, u16))
    ensures
        next_contact(None, TouchRead::Touched { first: Some(p) }) == Some(
            Contact { start: p, last: p },
        ),
        next_contact(Some(contact), TouchRead::Touched { first: Some(p) }) == Some(
            Contact { start: contact.start, last: p },
        ),
        next_contact(None, TouchRead::Touched { first: None }) is None,
        next_contact(Some(contact), TouchRead::Touched { first: None }) == Some(contact),
        next_contact(None, TouchRead::Released) is None,
        next_contact(Some(contact), TouchRead::Released) is None,
        next_contact(None, TouchRead::Failed) is None,
        next_contact(Some(contact), TouchRead::Failed) is None,
        touch_action(None, TouchRead::Touched { first: Some(p) }) == (TouchAction::Started {
            x: p.0,
            y: p.1,
        }),
        touch_action(Some(contact), TouchRead::Touched { first: Some(p) }) is Nothing,
        touch_action(None, TouchRead::Touched { first: None }) is Nothing,
        touch_action(Some(contact), TouchRead::Touched { first: None }) is Nothing,
        touch_action(None, TouchRead::Released) is Nothing,
        touch_action(None, TouchRead::Failed) is Nothing,
        touch_action(Some(contact), TouchRead::Failed) is Nothing,
{
}

/// Points on the way of a contact do not matter: with any readings that report
/// a touch in between, a contact that begins at `first` and reports `latest`
/// last of all is the contact from `first` to `latest`.
pub proof fn law_way_does_not_matter(
    first: (u16, u16),
    way: Seq<TouchRead>,
    latest: (u16, u16),
)
    requires
        forall|i: int| 0 <= i < way.len() ==> (#[trigger] way[i]) is Touched,
    ensures
        contact_after(
            None,
            (seq![TouchRead::Touched { first: Some(first) }] + way).push(
                TouchRead::Touched { first: Some(latest) },
            ),
        ) == Some(Contact { start: first, last: latest }),
{
    let begin = seq![TouchRead::Touched { first: Some(first) }] + way;
    let all = begin.push(TouchRead::Touched { first: Some(latest) });
    law_contact_keeps_its_start(first, way);
    assert(all.drop_last() =~= begin);
}

} // verus!
