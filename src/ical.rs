//! The iCalendar export of a list of classes.

use vstd::prelude::*;

use icalendar::{Component, EventLike};

use crate::date::{compact_stamp_of, fits_instant, instant_at, DateTime};
use crate::models::{all_wf, views, ClassItem, ClassView};
use crate::text::{chars_of, push_chars, push_str_chars, replace_all, replace_chars, string_of};

verus! {

/// The gym's own details, used where a class has no location of its own and
/// to brand its map entry.
pub struct GymProfile {
    /// The gym's display name.
    pub title: String,
    /// The gym's postal address.
    pub location: String,
    /// Latitude as written in the geo URI.
    pub latitude: String,
    /// Longitude as written in the geo URI.
    pub longitude: String,
}

pub struct GymView {
    pub title: Seq<char>,
    pub location: Seq<char>,
    pub latitude: Seq<char>,
    pub longitude: Seq<char>,
}

impl View for GymProfile {
    type V = GymView;

    open spec fn view(&self) -> GymView {
        GymView {
            title: self.title@,
            location: self.location@,
            latitude: self.latitude@,
            longitude: self.longitude@,
        }
    }
}

/// One property of a calendar event: its name, its value and its parameters.
pub struct EventProperty {
    pub key: String,
    pub value: String,
    pub params: Vec<(String, String)>,
}

/// Name, value and parameters of a property.
pub type PropertyView = (Seq<char>, Seq<char>, Seq<(Seq<char>, Seq<char>)>);

pub open spec fn params_view(p: Seq<(String, String)>) -> Seq<(Seq<char>, Seq<char>)> {
    p.map_values(|kv: (String, String)| (kv.0@, kv.1@))
}

impl View for EventProperty {
    type V = PropertyView;

    open spec fn view(&self) -> PropertyView {
        (self.key@, self.value@, params_view(self.params@))
    }
}

pub open spec fn props_view(p: Seq<EventProperty>) -> Seq<PropertyView> {
    p.map_values(|e: EventProperty| e@)
}

pub open spec fn events_view(e: Seq<Vec<EventProperty>>) -> Seq<Seq<PropertyView>> {
    e.map_values(|v: Vec<EventProperty>| props_view(v@))
}

/// Whether an event has a property named `k`.
pub open spec fn has_key(e: Seq<PropertyView>, k: Seq<char>) -> bool {
    exists|j: int| 0 <= j < e.len() && (#[trigger] e[j]).0 == k
}

/// The bytes of the iCalendar document that icalendar writes for a calendar
/// called `name` holding one event per entry of `events`, each with the given
/// properties in order.
pub uninterp spec fn calendar_bytes_of(name: Seq<char>, events: Seq<Seq<PropertyView>>) -> Seq<u8>;

/// Relies on icalendar's `Calendar::new`, `Calendar::name`, `Event::new`,
/// `Property::new`, `Property::add_parameter`, `Component::append_property`,
/// `Calendar::push` and the calendar's `Display`. The text depends on the
/// arguments alone because every event carries its own `DTSTAMP` and `UID`,
/// the two properties that icalendar otherwise fills from the clock and a
/// random UUID. The document always has its `BEGIN:VCALENDAR` line.
#[verifier::external_body]
fn render_calendar(name: &str, events: &Vec<Vec<EventProperty>>) -> (r: Vec<u8>)
    requires
        forall|i: int| 0 <= i < events@.len() ==> has_key(#[trigger] events_view(events@)[i], "DTSTAMP"@)
            && has_key(events_view(events@)[i], "UID"@),
    ensures
        r@ == calendar_bytes_of(name@, events_view(events@)),
        r@.len() > 0,
{
    let mut cal = icalendar::Calendar::new();
    cal.name(name);
    for props in events {
        let mut event = icalendar::Event::new();
        for p in props {
            let mut prop = icalendar::Property::new(p.key.as_str(), p.value.as_str());
            for (k, v) in &p.params {
                prop.add_parameter(k, v);
            }
            event.append_property(prop);
        }
        cal.push(event.done());
    }
    cal.to_string().into_bytes()
}

/// Length of a class in minutes: its own, or an hour where it has none.
pub open spec fn minutes_of(c: ClassView) -> int {
    match c.duration_min {
        Some(d) => d as int,
        None => 60,
    }
}

/// Minute index of the end of a class.
pub open spec fn end_index(c: ClassView) -> int {
    c.date.minute_index() + minutes_of(c)
}

/// Whether the end of a class has a date in the range of this library.
pub open spec fn has_end(c: ClassView) -> bool {
    fits_instant(end_index(c))
}

pub open spec fn stamp(t: DateTime) -> Seq<char> {
    compact_stamp_of(t.date.days as int, t.hour as int, t.minute as int)
}

/// `s` with each space turned into a hyphen.
pub open spec fn hyphenated(s: Seq<char>) -> Seq<char> {
    replace_all(s, " "@, "-"@)
}

/// The identifier of a class's event, the same on every export.
pub open spec fn class_uid(c: ClassView) -> Seq<char> {
    stamp(c.date) + "-"@ + hyphenated(c.event_name) + "-"@ + hyphenated(c.coach)
        + "-crossfit-timetable"@
}

/// Where a class takes place: its own location, else the gym's address.
pub open spec fn event_location(c: ClassView, gym: GymView) -> Seq<char> {
    match c.location {
        Some(l) => l,
        None => gym.location,
    }
}

pub open spec fn class_description(c: ClassView) -> Seq<char> {
    "CrossFit Class\nCoach: "@ + c.coach + "\nSource: "@ + c.source_url
}

/// The map entry of an event: a geo URI of the gym with the address, the
/// gym's name and a radius of about fifty metres.
pub open spec fn structured_location(location: Seq<char>, gym: GymView) -> PropertyView {
    (
        "X-APPLE-STRUCTURED-LOCATION"@,
        "geo:"@ + gym.latitude + ","@ + gym.longitude,
        seq![
            ("VALUE"@, "URI"@),
            ("X-ADDRESS"@, replace_all(location, ", "@, "\\n"@)),
            ("X-TITLE"@, gym.title),
            ("X-APPLE-RADIUS"@, "49.91"@),
        ],
    )
}

/// The properties of the event of a class.
pub open spec fn event_properties_of(c: ClassView, gym: GymView) -> Seq<PropertyView> {
    let none = Seq::<(Seq<char>, Seq<char>)>::empty();
    seq![
        ("DTSTAMP"@, stamp(c.date) + "Z"@, none),
        ("SUMMARY"@, "CrossFit: "@ + c.event_name, none),
        ("DTSTART"@, stamp(c.date), none),
        ("DTEND"@, stamp(instant_at(end_index(c))), none),
        ("LOCATION"@, event_location(c, gym), none),
        ("DESCRIPTION"@, class_description(c), none),
        ("UID"@, class_uid(c), none),
        structured_location(event_location(c, gym), gym),
    ]
}

/// The events of a list of classes.
pub open spec fn calendar_events_of(cs: Seq<ClassView>, gym: GymView) -> Seq<Seq<PropertyView>> {
    cs.map_values(|c: ClassView| event_properties_of(c, gym))
}

pub open spec fn calendar_name() -> Seq<char> {
    "CrossFit 2.0 Rzeszów Timetable"@
}

/// The bytes of the export of `cs`: nothing where there is no class, else the
/// calendar of their events.
pub open spec fn export_bytes_of(cs: Seq<ClassView>, gym: GymView) -> Seq<u8> {
    if cs.len() == 0 {
        Seq::empty()
    } else {
        calendar_bytes_of(calendar_name(), calendar_events_of(cs, gym))
    }
}

/// The export of a list of classes depends on the classes and the gym alone,
/// not on when it is made: two exports of the same list are the same bytes.
pub proof fn lemma_export_repeatable(a: Seq<ClassView>, b: Seq<ClassView>, gym: GymView)
    requires
        a == b,
    ensures
        export_bytes_of(a, gym) == export_bytes_of(b, gym),
{
}

/// The export of one class is a calendar of exactly one event, which has the
/// class's summary, its start, an end no earlier than the start, and an
/// identifier made of its start, name and coach.
pub proof fn lemma_single_class_event(c: ClassView, gym: GymView)
    requires
        c.date.wf(),
        has_end(c),
    ensures
        calendar_events_of(seq![c], gym).len() == 1,
        export_bytes_of(seq![c], gym) == calendar_bytes_of(calendar_name(), calendar_events_of(seq![c], gym)),
        ({
            let e = calendar_events_of(seq![c], gym)[0];
            &&& e[1] == ("SUMMARY"@, "CrossFit: "@ + c.event_name, Seq::<(Seq<char>, Seq<char>)>::empty())
            &&& e[2].0 == "DTSTART"@ && e[2].1 == stamp(c.date)
            &&& e[3].0 == "DTEND"@ && e[3].1 == stamp(instant_at(end_index(c)))
            &&& end_index(c) >= c.date.minute_index()
            &&& e[6].0 == "UID"@ && e[6].1 == stamp(c.date) + "-"@ + hyphenated(c.event_name) + "-"@
                + hyphenated(c.coach) + "-crossfit-timetable"@
        }),
{
    assert(calendar_events_of(seq![c], gym)[0] == event_properties_of(c, gym));
}

/// A property with no parameters.
fn plain_property(key: &str, value: &Vec<char>) -> (r: EventProperty)
    ensures
        r@ == (key@, value@, Seq::<(Seq<char>, Seq<char>)>::empty()),
{
    let params: Vec<(String, String)> = Vec::new();
    let r = EventProperty { key: key.to_owned(), value: string_of(value), params };
    assert(params_view(r.params@) =~= Seq::<(Seq<char>, Seq<char>)>::empty());
    r
}

/// A parameter of a property.
fn param(key: &str, value: String) -> (r: (String, String))
    ensures
        r.0@ == key@,
        r.1@ == value@,
{
    (key.to_owned(), value)
}

/// Renders classes as an iCalendar document.
#[derive(Clone, Copy, Debug, Default)]
pub struct ICalExporter;

impl ICalExporter {
    pub fn new() -> (r: Self) {
        ICalExporter
    }

    /// The end of a class: its start plus its length, or plus an hour.
    pub fn event_end(item: &ClassItem) -> (r: Option<DateTime>)
        requires
            item.date.wf(),
        ensures
            match r {
                Some(t) => has_end(item@) && t == instant_at(end_index(item@)) && t.wf(),
                None => !has_end(item@),
            },
    {
        let minutes: u32 = match item.duration_min {
            Some(d) => d,
            None => 60,
        };
        item.date.plus_minutes(minutes)
    }

    /// The map entry of an event at `location`.
    fn create_structured_location(location: &Vec<char>, gym: &GymProfile) -> (r: EventProperty)
        ensures
            r@ == structured_location(location@, gym@),
    {
        let mut geo = chars_of("geo:");
        push_str_chars(&mut geo, gym.latitude.as_str());
        push_str_chars(&mut geo, ",");
        push_str_chars(&mut geo, gym.longitude.as_str());
        let from = chars_of(", ");
        let to = chars_of("\\n");
        proof {
            reveal_strlit(", ");
        }
        let address = replace_chars(location, &from, &to);
        let mut params: Vec<(String, String)> = Vec::new();
        params.push(param("VALUE", "URI".to_owned()));
        params.push(param("X-ADDRESS", string_of(&address)));
        params.push(param("X-TITLE", gym.title.clone()));
        params.push(param("X-APPLE-RADIUS", "49.91".to_owned()));
        let r = EventProperty {
            key: "X-APPLE-STRUCTURED-LOCATION".to_owned(),
            value: string_of(&geo),
            params,
        };
        assert(params_view(r.params@) =~= structured_location(location@, gym@).2);
        r
    }

    /// The properties of the event of a class.
    pub fn event_properties(item: &ClassItem, gym: &GymProfile) -> (r: Vec<EventProperty>)
        requires
            item.date.wf(),
            has_end(item@),
        ensures
            props_view(r@) == event_properties_of(item@, gym@),
    {
        let start = item.date.to_compact_string();
        let end = match Self::event_end(item) {
            Some(t) => t,
            None => return Vec::new(),
        };
        let start_chars = chars_of(start.as_str());
        let end_chars = chars_of(end.to_compact_string().as_str());
        let mut stamp_z = chars_of(start.as_str());
        push_str_chars(&mut stamp_z, "Z");
        let mut summary = chars_of("CrossFit: ");
        push_str_chars(&mut summary, item.event_name.as_str());
        let location = match &item.location {
            Some(l) => chars_of(l.as_str()),
            None => chars_of(gym.location.as_str()),
        };
        let mut description = chars_of("CrossFit Class\nCoach: ");
        push_str_chars(&mut description, item.coach.as_str());
        push_str_chars(&mut description, "\nSource: ");
        push_str_chars(&mut description, item.source_url.as_str());
        let space = chars_of(" ");
        let hyphen = chars_of("-");
        proof {
            reveal_strlit(" ");
        }
        let mut uid = chars_of(start.as_str());
        push_str_chars(&mut uid, "-");
        push_chars(&mut uid, &replace_chars(&chars_of(item.event_name.as_str()), &space, &hyphen));
        push_str_chars(&mut uid, "-");
        push_chars(&mut uid, &replace_chars(&chars_of(item.coach.as_str()), &space, &hyphen));
        push_str_chars(&mut uid, "-crossfit-timetable");
        let mut r: Vec<EventProperty> = Vec::new();
        r.push(plain_property("DTSTAMP", &stamp_z));
        r.push(plain_property("SUMMARY", &summary));
        r.push(plain_property("DTSTART", &start_chars));
        r.push(plain_property("DTEND", &end_chars));
        r.push(plain_property("LOCATION", &location));
        r.push(plain_property("DESCRIPTION", &description));
        r.push(plain_property("UID", &uid));
        r.push(Self::create_structured_location(&location, gym));
        assert(props_view(r@) =~= event_properties_of(item@, gym@));
        r
    }

    /// The iCalendar document of `classes`, one event per class; no bytes at
    /// all where there is no class.
    pub fn generate(&self, classes: &[ClassItem], gym: &GymProfile) -> (r: Vec<u8>)
        requires
            forall|i: int| 0 <= i < classes@.len() ==> (#[trigger] classes@[i]).date.wf() && has_end(classes@[i]@),
        ensures
            r@ == export_bytes_of(views(classes@), gym@),
            classes@.len() == 0 <==> r@.len() == 0,
    {
        if classes.len() == 0 {
            let r: Vec<u8> = Vec::new();
            assert(r@ =~= export_bytes_of(views(classes@), gym@));
            return r;
        }
        let mut events: Vec<Vec<EventProperty>> = Vec::new();
        let mut i: usize = 0;
        while i < classes.len()
            invariant
                i <= classes@.len(),
                forall|k: int| 0 <= k < classes@.len() ==> (#[trigger] classes@[k]).date.wf() && has_end(classes@[k]@),
                events_view(events@) == calendar_events_of(views(classes@), gym@).take(i as int),
            decreases classes@.len() - i,
        {
            let props = Self::event_properties(&classes[i], gym);
            let ghost prev = events@;
            events.push(props);
            proof {
                assert(events_view(events@) =~= events_view(prev).push(props_view(props@)));
                assert(calendar_events_of(views(classes@), gym@).take(i + 1)
                    =~= calendar_events_of(views(classes@), gym@).take(i as int).push(
                        event_properties_of(classes@[i as int]@, gym@)));
            }
            i += 1;
        }
        let ghost evs = calendar_events_of(views(classes@), gym@);
        proof {
            assert(evs.take(i as int) =~= evs);
            assert forall|k: int| 0 <= k < events@.len() implies has_key(#[trigger] events_view(events@)[k], "DTSTAMP"@)
                && has_key(events_view(events@)[k], "UID"@) by {
                let e = events_view(events@)[k];
                assert(e[0].0 == "DTSTAMP"@);
                assert(e[6].0 == "UID"@);
            }
        }
        let name = "CrossFit 2.0 Rzeszów Timetable";
        render_calendar(name, &events)
    }
}

} // verus!
