//! Lists that seldom hold more than a few items, so that these are kept inline.

use smallvec::SmallVec;
use vstd::prelude::*;

use crate::game::server::Contact;
use crate::game::{Event, PlayerId};

verus! {

/// Events that tell of one more or one less player.
#[verifier::external_body]
pub struct Events {
    list: SmallVec<[Event; 2]>,
}

/// The events that a list holds, in order.
pub uninterp spec fn events_in(list: Events) -> Seq<Event>;

/// Makes an empty list: `SmallVec::new` holds nothing.
#[verifier::external_body]
pub(crate) fn no_events() -> (list: Events)
    ensures
        events_in(list) == Seq::<Event>::empty(),
{
    Events { list: SmallVec::new() }
}

/// Appends an event: `SmallVec::push` adds it at the end and keeps the rest.
#[verifier::external_body]
pub(crate) fn push_event(list: &mut Events, event: Event)
    ensures
        events_in(*final(list)) == events_in(*old(list)).push(event),
{
    list.list.push(event);
}

/// Hands the events out: `SmallVec::into_vec` keeps all of them and their order.
#[verifier::external_body]
pub(crate) fn events_to_vec(list: Events) -> (events: Vec<Event>)
    ensures
        events@ == events_in(list),
{
    list.list.into_vec()
}

/// Pairs of balls that have been checked for collisions.
#[verifier::external_body]
pub struct Contacts {
    list: SmallVec<[Contact; 2]>,
}

/// The pairs that a list holds, in order.
pub uninterp spec fn contacts_in(list: Contacts) -> Seq<Contact>;

/// Makes an empty list: `SmallVec::new` holds nothing.
#[verifier::external_body]
pub(crate) fn no_contacts() -> (list: Contacts)
    ensures
        contacts_in(list) == Seq::<Contact>::empty(),
{
    Contacts { list: SmallVec::new() }
}

/// Appends a pair: `SmallVec::push` adds it at the end and keeps the rest.
#[verifier::external_body]
pub(crate) fn push_contact(list: &mut Contacts, contact: Contact)
    ensures
        contacts_in(*final(list)) == contacts_in(*old(list)).push(contact),
{
    list.list.push(contact);
}

/// Hands the pairs out: `SmallVec::into_vec` keeps all of them and their order.
#[verifier::external_body]
pub(crate) fn contacts_to_vec(list: Contacts) -> (contacts: Vec<Contact>)
    ensures
        contacts@ == contacts_in(list),
{
    list.list.into_vec()
}

/// Players that are killed.
#[verifier::external_body]
pub struct Deaths {
    list: SmallVec<[PlayerId; 1]>,
}

/// The players that a list holds, in order.
pub uninterp spec fn deaths_in(list: Deaths) -> Seq<PlayerId>;

/// Makes an empty list: `SmallVec::new` holds nothing.
#[verifier::external_body]
pub(crate) fn no_deaths() -> (list: Deaths)
    ensures
        deaths_in(list) == Seq::<PlayerId>::empty(),
{
    Deaths { list: SmallVec::new() }
}

/// Appends a player: `SmallVec::push` adds it at the end and keeps the rest.
#[verifier::external_body]
pub(crate) fn push_death(list: &mut Deaths, id: PlayerId)
    ensures
        deaths_in(*final(list)) == deaths_in(*old(list)).push(id),
{
    list.list.push(id);
}

/// Hands the players out: `SmallVec::into_vec` keeps all of them and their order.
#[verifier::external_body]
pub(crate) fn deaths_to_vec(list: Deaths) -> (ids: Vec<PlayerId>)
    ensures
        ids@ == deaths_in(list),
{
    list.list.into_vec()
}

} // verus!
