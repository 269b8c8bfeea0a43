//! Closing the broadcast rooms of a tenant.
//!
//! Closing all rooms of a tenant ends its connections as well; closing a
//! single room leaves them, and its subscribers may come back. The counts in
//! the answer are those from before.

use vstd::prelude::*;
use crate::audit_note::{about, by_actor, done, field_views, flag_field, note_about, note_by, note_done, number_field, text_field, AuditNote, Field, FieldView};
use crate::reply::{refusal, refuse, refuse_with, Refusal};
use crate::text::str_eq;

verus! {

/// A room that somebody listens to.
#[derive(Debug)]
pub struct Room {
    pub tenant: String,
    pub name: String,
    pub subscribers: u64,
}

/// A room, as mathematics has it.
pub struct RoomView {
    pub tenant: Seq<char>,
    pub name: Seq<char>,
    pub subscribers: nat,
}

impl View for Room {
    type V = RoomView;

    open spec fn view(&self) -> RoomView {
        RoomView { tenant: self.tenant@, name: self.name@, subscribers: self.subscribers as nat }
    }
}

/// The rooms of all tenants. Each room stands there once.
#[derive(Debug)]
pub struct RoomBus {
    rooms: Vec<Room>,
}

/// The rooms, as mathematics has them.
pub open spec fn room_views(v: Seq<Room>) -> Seq<RoomView> {
    v.map_values(|r: Room| r@)
}

/// The room of that tenant and name.
pub open spec fn is_room(r: RoomView, tenant: Seq<char>, name: Seq<char>) -> bool {
    r.tenant == tenant && r.name == name
}

/// No room stands there twice.
pub open spec fn rooms_distinct(rooms: Seq<RoomView>) -> bool {
    forall|i: int, j: int|
        0 <= i < j < rooms.len() ==> !is_room(
            #[trigger] rooms[j],
            (#[trigger] rooms[i]).tenant,
            rooms[i].name,
        )
}

/// How many rooms a tenant has.
pub open spec fn channel_count(rooms: Seq<RoomView>, tenant: Seq<char>) -> nat {
    rooms.filter(|r: RoomView| r.tenant == tenant).len()
}

/// The rooms that are left when those of a tenant are closed.
pub open spec fn without_tenant(rooms: Seq<RoomView>, tenant: Seq<char>) -> Seq<RoomView> {
    rooms.filter(|r: RoomView| r.tenant != tenant)
}

impl RoomBus {
    pub closed spec fn view(&self) -> Seq<RoomView> {
        room_views(self.rooms@)
    }

    pub fn new() -> (r: Self)
        ensures
            r@ == Seq::<RoomView>::empty(),
            rooms_distinct(r@),
    {
        let r: RoomBus = RoomBus { rooms: Vec::new() };
        assert(r@ =~= Seq::<RoomView>::empty());
        r
    }

    fn find(&self, tenant: &str, name: &str) -> (r: Option<usize>)
        ensures
            match r {
                Some(i) => i < self@.len() && is_room(self@[i as int], tenant@, name@),
                None => forall|i: int| 0 <= i < self@.len() ==> !is_room(#[trigger] self@[i], tenant@, name@),
            },
    {
        let mut i: usize = 0;
        while i < self.rooms.len()
            invariant
                i <= self.rooms@.len(),
                forall|k: int| 0 <= k < i ==> !is_room(#[trigger] self@[k], tenant@, name@),
            decreases self.rooms@.len() - i,
        {
            assert(self@[i as int] == self.rooms@[i as int]@);
            if str_eq(self.rooms[i].tenant.as_str(), tenant) && str_eq(
                self.rooms[i].name.as_str(),
                name,
            ) {
                return Some(i);
            }
            i = i + 1;
        }
        None
    }

    /// Adds a subscriber to a room, which is opened for the first one.
    pub fn subscribe(&mut self, tenant: &str, name: &str)
        requires
            rooms_distinct(old(self)@),
            forall|i: int| 0 <= i < old(self)@.len() ==> (#[trigger] old(self)@[i]).subscribers < u64::MAX,
        ensures
            rooms_distinct(final(self)@),
            match opened(old(self)@, tenant@, name@) {
                Some(i) => final(self)@ == old(self)@.update(
                    i,
                    RoomView {
                        subscribers: old(self)@[i].subscribers + 1,
                        ..old(self)@[i]
                    },
                ),
                None => final(self)@ == old(self)@.push(
                    RoomView { tenant: tenant@, name: name@, subscribers: 1 },
                ),
            },
    {
        let ghost before = self@;
        match self.find(tenant, name) {
            Some(i) => {
                assert(before[i as int] == self.rooms@[i as int]@);
                proof {
                    lemma_opened(before, tenant@, name@, i as int);
                }
                let n: u64 = self.rooms[i].subscribers + 1;
                self.rooms.set(
                    i,
                    Room { tenant: tenant.to_owned(), name: name.to_owned(), subscribers: n },
                );
                assert(self@ =~= before.update(
                    i as int,
                    RoomView { subscribers: before[i as int].subscribers + 1, ..before[i as int] },
                ));
            },
            None => {
                self.rooms.push(
                    Room { tenant: tenant.to_owned(), name: name.to_owned(), subscribers: 1 },
                );
                assert(self@ =~= before.push(
                    RoomView { tenant: tenant@, name: name@, subscribers: 1 },
                ));
                assert(opened(before, tenant@, name@) is None);
            },
        }
    }

    /// How many rooms a tenant has.
    pub fn tenant_channel_count(&self, tenant: &str) -> (n: usize)
        ensures
            n == channel_count(self@, tenant@),
    {
        let ghost f = |r: RoomView| r.tenant == tenant@;
        let ghost all = self@;
        let mut n: usize = 0;
        let mut i: usize = 0;
        proof {
            reveal(Seq::filter);
        }
        assert(all.take(0) =~= Seq::<RoomView>::empty());
        assert(all.take(0).filter(f) =~= Seq::<RoomView>::empty());
        while i < self.rooms.len()
            invariant
                i <= self.rooms@.len(),
                n <= i,
                all == self@,
                all.len() == self.rooms@.len(),
                f == (|r: RoomView| r.tenant == tenant@),
                n == all.take(i as int).filter(f).len(),
            decreases self.rooms@.len() - i,
        {
            proof {
                reveal(Seq::filter);
                assert(all.take(i as int + 1).drop_last() =~= all.take(i as int));
                assert(all.take(i as int + 1).last() == self.rooms@[i as int]@);
            }
            if str_eq(self.rooms[i].tenant.as_str(), tenant) {
                n = n + 1;
            }
            i = i + 1;
        }
        assert(all.take(i as int) =~= all);
        n
    }

    /// Closes all rooms of a tenant.
    pub fn evict_tenant(&mut self, tenant: &str)
        ensures
            final(self)@ == without_tenant(old(self)@, tenant@),
    {
        let ghost f = |r: RoomView| r.tenant != tenant@;
        let ghost all = self@;
        let mut kept: Vec<Room> = Vec::new();
        let mut i: usize = 0;
        proof {
            reveal(Seq::filter);
        }
        assert(all.take(0) =~= Seq::<RoomView>::empty());
        assert(room_views(kept@) =~= all.take(0).filter(f));
        while i < self.rooms.len()
            invariant
                i <= self.rooms@.len(),
                all == self@,
                all.len() == self.rooms@.len(),
                f == (|r: RoomView| r.tenant != tenant@),
                room_views(kept@) == all.take(i as int).filter(f),
            decreases self.rooms@.len() - i,
        {
            let ghost before = room_views(kept@);
            proof {
                reveal(Seq::filter);
                assert(all.take(i as int + 1).drop_last() =~= all.take(i as int));
                assert(all.take(i as int + 1).last() == self.rooms@[i as int]@);
            }
            if !str_eq(self.rooms[i].tenant.as_str(), tenant) {
                kept.push(
                    Room {
                        tenant: self.rooms[i].tenant.clone(),
                        name: self.rooms[i].name.clone(),
                        subscribers: self.rooms[i].subscribers,
                    },
                );
                assert(room_views(kept@) =~= before.push(self.rooms@[i as int]@));
            }
            i = i + 1;
        }
        assert(all.take(i as int) =~= all);
        self.rooms = kept;
    }
}

/// The place of an open room.
pub open spec fn opened(rooms: Seq<RoomView>, tenant: Seq<char>, name: Seq<char>) -> Option<int> {
    if exists|i: int| 0 <= i < rooms.len() && is_room(#[trigger] rooms[i], tenant, name) {
        Some(choose|i: int| 0 <= i < rooms.len() && is_room(#[trigger] rooms[i], tenant, name))
    } else {
        None
    }
}

proof fn lemma_opened(rooms: Seq<RoomView>, tenant: Seq<char>, name: Seq<char>, i: int)
    requires
        rooms_distinct(rooms),
        0 <= i < rooms.len(),
        is_room(rooms[i], tenant, name),
    ensures
        opened(rooms, tenant, name) == Some(i),
{
    let k = choose|k: int| 0 <= k < rooms.len() && is_room(#[trigger] rooms[k], tenant, name);
    if k < i {
        assert(!is_room(rooms[i], rooms[k].tenant, rooms[k].name));
    } else if i < k {
        assert(!is_room(rooms[k], rooms[i].tenant, rooms[i].name));
    }
}

/// Closing the rooms of a tenant leaves none of its own and all of the others.
pub proof fn law_eviction_is_of_one_tenant(rooms: Seq<RoomView>, tenant: Seq<char>, other: Seq<char>)
    requires
        other != tenant,
    ensures
        channel_count(without_tenant(rooms, tenant), tenant) == 0,
        channel_count(without_tenant(rooms, tenant), other) == channel_count(rooms, other),
    decreases rooms.len(),
{
    reveal(Seq::filter);
    let keep = |r: RoomView| r.tenant != tenant;
    let of_tenant = |r: RoomView| r.tenant == tenant;
    let of_other = |r: RoomView| r.tenant == other;
    if rooms.len() > 0 {
        let init = rooms.drop_last();
        law_eviction_is_of_one_tenant(init, tenant, other);
        if keep(rooms.last()) {
            let w = init.filter(keep).push(rooms.last());
            assert(w.drop_last() =~= init.filter(keep));
        }
    }
}

/// The answer to closing all rooms of a tenant, and the note to write.
#[derive(Debug)]
pub struct EvictAllReply {
    pub tenant_id: String,
    pub rooms_evicted: u32,
    pub subscribers_dropped: u32,
    pub note: AuditNote,
}

/// Answers the closing of all rooms of a tenant, given what is wrong with its
/// id if something is, and the counts from before.
pub fn evict_all_rooms_handler(
    caller_id: i64,
    tenant_id: &str,
    invalid: Option<String>,
    rooms_before: u32,
    subscribers_before: u32,
) -> (r: Result<EvictAllReply, Refusal>)
    ensures
        match invalid {
            Some(m) => r is Err && r->Err_0@ == refusal(400, "INVALID_TENANT_ID"@, m@),
            None => {
                &&& r matches Ok(e)
                &&& e.tenant_id@ == tenant_id@
                &&& e.rooms_evicted == rooms_before
                &&& e.subscribers_dropped == subscribers_before
                &&& e.note@ == by_actor(
                    about(
                        done(
                            "admin.broadcast.evict_all"@,
                            seq![
                                ("rooms_evicted"@, FieldView::Number(rooms_before as int)),
                                (
                                    "subscribers_dropped"@,
                                    FieldView::Number(subscribers_before as int),
                                ),
                            ],
                        ),
                        tenant_id@,
                        "admin"@,
                    ),
                    caller_id as int,
                    None,
                )
            },
        },
{
    if let Some(m) = invalid {
        return Err(refuse_with(400, "INVALID_TENANT_ID", m));
    }
    let mut extra: Vec<(String, Field)> = Vec::new();
    extra.push(number_field("rooms_evicted", rooms_before as i64));
    extra.push(number_field("subscribers_dropped", subscribers_before as i64));
    assert(field_views(extra@) =~= seq![
        ("rooms_evicted"@, FieldView::Number(rooms_before as int)),
        ("subscribers_dropped"@, FieldView::Number(subscribers_before as int)),
    ]);
    let note: AuditNote = note_about(
        note_done("admin.broadcast.evict_all", extra),
        tenant_id,
        "admin",
    );
    Ok(
        EvictAllReply {
            tenant_id: tenant_id.to_owned(),
            rooms_evicted: rooms_before,
            subscribers_dropped: subscribers_before,
            note: note_by(note, caller_id, &None),
        },
    )
}

/// The answer to closing one room, and the note to write.
#[derive(Debug)]
pub struct EvictRoomReply {
    pub tenant_id: String,
    pub room: String,
    pub evicted: bool,
    pub subscribers_dropped: u32,
    pub note: AuditNote,
}

/// Answers the closing of one room, given what is wrong with the tenant's id
/// or the room's name if something is, whether the room was open, and the
/// count from before.
pub fn evict_room_handler(
    caller_id: i64,
    tenant_id: &str,
    room: &str,
    invalid_tenant: Option<String>,
    invalid_room: Option<&str>,
    evicted: bool,
    subscribers_before: u32,
) -> (r: Result<EvictRoomReply, Refusal>)
    ensures
        match invalid_tenant {
            Some(m) => r is Err && r->Err_0@ == refusal(400, "INVALID_TENANT_ID"@, m@),
            None => match invalid_room {
                Some(code) => r is Err && r->Err_0@ == refusal(
                    400,
                    code@,
                    "room name rejected by publish-surface policy"@,
                ),
                None => {
                    &&& r matches Ok(e)
                    &&& e.tenant_id@ == tenant_id@
                    &&& e.room@ == room@
                    &&& e.evicted == evicted
                    &&& e.subscribers_dropped == subscribers_before
                    &&& e.note@ == by_actor(
                        about(
                            done(
                                "admin.broadcast.evict_room"@,
                                seq![
                                    ("room"@, FieldView::Text(room@)),
                                    ("evicted"@, FieldView::Flag(evicted)),
                                    (
                                        "subscribers_dropped"@,
                                        FieldView::Number(subscribers_before as int),
                                    ),
                                ],
                            ),
                            tenant_id@,
                            "admin"@,
                        ),
                        caller_id as int,
                        None,
                    )
                },
            },
        },
{
    if let Some(m) = invalid_tenant {
        return Err(refuse_with(400, "INVALID_TENANT_ID", m));
    }
    if let Some(code) = invalid_room {
        return Err(refuse(400, code, "room name rejected by publish-surface policy"));
    }
    let mut extra: Vec<(String, Field)> = Vec::new();
    extra.push(text_field("room", room));
    extra.push(flag_field("evicted", evicted));
    extra.push(number_field("subscribers_dropped", subscribers_before as i64));
    assert(field_views(extra@) =~= seq![
        ("room"@, FieldView::Text(room@)),
        ("evicted"@, FieldView::Flag(evicted)),
        ("subscribers_dropped"@, FieldView::Number(subscribers_before as int)),
    ]);
    let note: AuditNote = note_about(
        note_done("admin.broadcast.evict_room", extra),
        tenant_id,
        "admin",
    );
    Ok(
        EvictRoomReply {
            tenant_id: tenant_id.to_owned(),
            room: room.to_owned(),
            evicted,
            subscribers_dropped: subscribers_before,
            note: note_by(note, caller_id, &None),
        },
    )
}

/// A room that is open is found, and found once; one that is not open is not.
pub proof fn law_open_rooms_are_found(rooms: Seq<RoomView>, tenant: Seq<char>, name: Seq<char>, i: int)
    requires
        rooms_distinct(rooms),
    ensures
        0 <= i < rooms.len() && rooms[i].tenant == tenant && rooms[i].name == name ==> opened(
            rooms,
            tenant,
            name,
        ) == Some(i),
        (forall|k: int|
            0 <= k < rooms.len() ==> !((#[trigger] rooms[k]).tenant == tenant && rooms[k].name
                == name)) ==> opened(rooms, tenant, name) is None,
{
    if 0 <= i < rooms.len() && rooms[i].tenant == tenant && rooms[i].name == name {
        lemma_opened(rooms, tenant, name, i);
    }
}

/// A tenant has one room more when one is opened for it, and no other tenant has.
pub proof fn law_rooms_are_counted_by_tenant(rooms: Seq<RoomView>, room: RoomView, other: Seq<char>)
    ensures
        channel_count(rooms.push(room), room.tenant) == channel_count(rooms, room.tenant) + 1,
        other != room.tenant ==> channel_count(rooms.push(room), other) == channel_count(rooms, other),
        channel_count(Seq::<RoomView>::empty(), other) == 0,
{
    reveal(Seq::filter);
    assert(rooms.push(room).drop_last() =~= rooms);
}

} // verus!
