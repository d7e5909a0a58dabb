//! Scenarios for the locking engine over a positional collection.

use lockerroom::{CellAttempt, LockerRoom};

/// A schedule of two writers of one cell: the second must wait for the
/// first, and both increments land.  Starting from 0, +1 and +2 leave 3.
#[test]
fn two_writers_one_cell() {
    let v: Vec<u64> = vec![0, 1, 2, 3, 4, 5];
    let mut lr: LockerRoom<Vec<u64>> = v.into();

    // First writer takes the cell.
    let w1 = lr.write_cell(0).acquired();
    // The second writer's attempt blocks while the first holds the cell.
    assert!(lr.write_cell(0).is_blocked());
    let v1 = *lr.write_cell_value(&w1);
    lr.set_cell(&w1, v1 + 1);
    lr.release_write(w1);

    // Retried after the release, the second writer proceeds.
    let w2 = lr.write_cell(0).acquired();
    let v2 = *lr.write_cell_value(&w2);
    lr.set_cell(&w2, v2 + 2);
    lr.release_write(w2);

    let r = lr.read_cell(0).acquired();
    assert_eq!(3, *lr.read_value(&r));
    lr.release_read(r);
}

/// Readers of one cell coexist and observe the same value; a writer of that
/// cell waits until every reader released; other cells stay independent.
#[test]
fn readers_share_writers_wait() {
    let v: Vec<u64> = vec![7, 8, 9];
    let mut lr = LockerRoom::new(v);

    let g1 = lr.read_cell(2).acquired();
    let g2 = lr.read_cell(2).acquired();
    let g3 = lr.read_cell(2).acquired();
    assert_eq!(9, *lr.read_value(&g1));
    assert_eq!(9, *lr.read_value(&g2));
    assert_eq!(9, *lr.read_value(&g3));

    // A writer of the same cell blocks while any reader holds it.
    assert!(lr.write_cell(2).is_blocked());
    // A further reader of the same cell, and a writer of another cell,
    // proceed regardless.
    let g4 = lr.read_cell(2).acquired();
    assert_eq!(9, *lr.read_value(&g4));
    lr.release_read(g4);

    let w_other = lr.write_cell(0).acquired();
    lr.set_cell(&w_other, 70);
    lr.release_write(w_other);

    lr.release_read(g1);
    lr.release_read(g2);
    assert!(lr.write_cell(2).is_blocked());
    lr.release_read(g3);

    let w = lr.write_cell(2).acquired();
    lr.set_cell(&w, 90);
    lr.release_write(w);

    let out = lr.into_inner();
    assert_eq!(vec![70, 8, 90], out);
}

/// Cell operations on an absent key report absence, never a crash.
#[test]
fn absent_key_is_reported() {
    let v: Vec<u64> = vec![0, 1, 2, 3, 4];
    let mut lr = LockerRoom::new(v);
    assert!(lr.read_cell(10).is_absent());
    assert!(lr.write_cell(10).is_absent());
    // The failed lookups held nothing back: the room can still be locked.
    let rg = lr.lock_room().expect("room should be free");
    lr.release_room(rg);
    let out = lr.into_inner();
    assert_eq!(vec![0, 1, 2, 3, 4], out);
}

/// The exclusive room hold excludes all cell access, and cell holds exclude
/// the room.
#[test]
fn room_excludes_cells() {
    let v: Vec<u64> = vec![1, 2];
    let mut lr = LockerRoom::new(v);

    let g = lr.read_cell(0).acquired();
    // An outstanding cell hold keeps the room from being locked.
    assert!(lr.lock_room().is_none());
    lr.release_read(g);

    let rg = lr.lock_room().expect("room should be free");
    // While the room is locked, every cell attempt blocks.
    assert!(lr.read_cell(0).is_blocked());
    assert!(lr.write_cell(1).is_blocked());
    assert!(lr.lock_room().is_none());
    lr.release_room(rg);

    // Released, the cells are reachable again.
    let g = lr.write_cell(1).acquired();
    lr.release_write(g);
}

/// Whole-room mutation interleaved with per-cell writers: with the sequence
/// `[0, 1, 2, 3, 4, 5]`, W worker passes each add `i` to index `i`, and a
/// grower appends one seeded element per round under the room lock.  The
/// first six elements end at `i * (W + 1)` and each appended element keeps
/// its seeded value: no torn or lost update.
#[test]
fn workers_and_room_grower() {
    const W: u64 = 4;
    let v: Vec<u64> = vec![0, 1, 2, 3, 4, 5];
    let mut lr = LockerRoom::new(v);

    for round in 0..W {
        for i in 0..6usize {
            let w = lr.write_cell(i).acquired();
            let cur = *lr.write_cell_value(&w);
            lr.set_cell(&w, cur + i as u64);
            lr.release_write(w);
        }
        let mut rg = lr.lock_room().expect("no cell hold is outstanding");
        rg.collection_mut().push(round);
        lr.release_room(rg);
        // The shadow table now covers the appended cell as well.
        let probe = lr.read_cell(6 + round as usize).acquired();
        lr.release_read(probe);
    }

    let out = lr.into_inner();
    assert_eq!(6 + W as usize, out.len());
    for i in 0..6u64 {
        assert_eq!(i * (W + 1), out[i as usize]);
    }
    for round in 0..W {
        assert_eq!(round, out[6 + round as usize]);
    }
}

/// Round trip: consuming the engine after construction and a series of cell
/// and room mutations yields exactly the expected collection.
#[test]
fn consume_round_trip() {
    let v: Vec<u64> = vec![10, 20, 30];
    let mut lr = LockerRoom::new(v);

    let w = lr.write_cell(1).acquired();
    lr.set_cell(&w, 21);
    lr.release_write(w);

    let mut rg = lr.lock_room().expect("room should be free");
    rg.collection_mut().push(40);
    rg.collection_mut().remove(0);
    lr.release_room(rg);

    let w = lr.write_cell(0).acquired();
    lr.set_cell(&w, 22);
    lr.release_write(w);

    let out = lr.into_inner();
    assert_eq!(vec![22, 30, 40], out);
}

/// Locking the room and releasing it without touching the collection leaves
/// every cell exactly as lockable as before: same keys present, same keys
/// absent, same values.
#[test]
fn idle_room_cycle_changes_nothing() {
    let v: Vec<u64> = vec![5, 6, 7];
    let mut lr = LockerRoom::new(v);

    let rg = lr.lock_room().expect("room should be free");
    lr.release_room(rg);

    for i in 0..3usize {
        let g = lr.read_cell(i).acquired();
        assert_eq!(5 + i as u64, *lr.read_value(&g));
        lr.release_read(g);
    }
    assert!(lr.read_cell(3).is_absent());
    assert_eq!(vec![5, 6, 7], lr.into_inner());
}

/// After a structural edit shrinks the collection, locks for dropped
/// positions are gone and the remaining positions stay lockable.
#[test]
fn shrink_drops_locks() {
    let v: Vec<u64> = vec![1, 2, 3, 4];
    let mut lr = LockerRoom::new(v);

    let mut rg = lr.lock_room().expect("room should be free");
    rg.collection_mut().truncate(2);
    lr.release_room(rg);

    assert!(lr.read_cell(2).is_absent());
    assert!(lr.write_cell(3).is_absent());
    let g = lr.write_cell(1).acquired();
    lr.set_cell(&g, 20);
    lr.release_write(g);
    assert_eq!(vec![1, 20], lr.into_inner());
}

/// An engine around an empty sequence: every key is absent until the room
/// lock grows the collection.
#[test]
fn empty_sequence_grows_under_room_lock() {
    let v: Vec<u64> = Vec::new();
    let mut lr = LockerRoom::new(v);
    assert!(lr.read_cell(0).is_absent());
    assert!(lr.write_cell(0).is_absent());

    let mut rg = lr.lock_room().expect("room should be free");
    rg.collection_mut().push(1);
    lr.release_room(rg);

    let g = lr.read_cell(0).acquired();
    assert_eq!(1, *lr.read_value(&g));
    lr.release_read(g);
    assert_eq!(vec![1], lr.into_inner());
}

/// Guards report the key they were acquired for.
#[test]
fn guards_report_their_key() {
    let v: Vec<u64> = vec![4, 5, 6];
    let mut lr = LockerRoom::new(v);
    let g = lr.read_cell(1).acquired();
    assert_eq!(1, *g.index());
    lr.release_read(g);
    let w = lr.write_cell(2).acquired();
    assert_eq!(2, *w.index());
    lr.release_write(w);
    let rg = lr.lock_room().expect("room should be free");
    assert_eq!(&vec![4, 5, 6], rg.collection());
    lr.release_room(rg);
}
