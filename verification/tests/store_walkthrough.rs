//! Long runs of scrolling, clicking and filtering, held against a second
//! store that is kept in the simplest way: by scanning the entries.

use sherlog::log_store::LogStoreLinear;
use sherlog::model::{LogLevel, Timestamp};
use sherlog::model_internal::{LogEntryExt, VISIBLE_ON};

struct PlainEntry {
    source_id: u32,
    visible: u8,
    entry_id: u32,
    prev_offset: u32,
    next_offset: u32,
}

struct PlainStore {
    store: Vec<PlainEntry>,
    entry_count: usize,
    first_offset: usize,
    last_offset: usize,
    anchor_offset: Option<usize>,
    visible_lines: usize,
    viewport_offset: usize,
}

fn plain_rel_to_abs(s: &PlainStore, rel_offset: usize) -> Option<usize> {
    s.store
        .iter()
        .enumerate()
        .skip(s.viewport_offset)
        .filter(|(_, x)| x.visible == 0)
        .skip(rel_offset)
        .map(|(offset, _)| offset)
        .next()
}

fn plain_abs_to_rel(s: &PlainStore, abs_offset: usize) -> Option<usize> {
    for (i, (offset, _)) in s
        .store
        .iter()
        .enumerate()
        .skip(s.viewport_offset)
        .filter(|(_, x)| x.visible == 0)
        .take(s.visible_lines)
        .enumerate()
    {
        if offset == abs_offset {
            return Some(i);
        }
    }
    None
}

fn plain_scroll(s: &mut PlainStore, lines: i64, window_size: usize) -> bool {
    if s.entry_count == 0 {
        return false;
    }
    let viewport_offset_old = s.viewport_offset;
    let mut abs_lines = lines.abs();
    if lines < 0 {
        while abs_lines > 0 {
            let new_offset = s.store[s.viewport_offset].prev_offset as usize;
            if s.viewport_offset == new_offset {
                break;
            }
            s.viewport_offset = new_offset;
            abs_lines -= 1;
        }
    } else {
        if s.entry_count <= window_size {
            return false;
        }
        while abs_lines > 0 {
            if (s.entry_count - window_size) <= s.store[s.viewport_offset].entry_id as usize {
                break;
            }
            let new_offset = s.store[s.viewport_offset].next_offset as usize;
            if s.viewport_offset == new_offset {
                break;
            }
            s.viewport_offset = new_offset;
            abs_lines -= 1;
        }
    }
    viewport_offset_old != s.viewport_offset
}

fn plain_filter(s: &mut PlainStore, filter: &dyn Fn(u32) -> bool, active: bool, mask: u8) {
    let (tmp_anchor_offset, rel_offset) = {
        if let Some(anchor_offset) = s.anchor_offset {
            if let Some(rel_offset) = plain_abs_to_rel(s, anchor_offset) {
                (anchor_offset, rel_offset)
            } else {
                let mut rel_offset = None;
                if let Some(mut abs_offset) = plain_rel_to_abs(s, 0) {
                    let mut prev_offset = abs_offset;
                    for i in 1..s.visible_lines {
                        abs_offset = s.store[abs_offset].next_offset as usize;
                        if anchor_offset >= prev_offset && anchor_offset <= abs_offset {
                            rel_offset = Some(i);
                            break;
                        }
                        prev_offset = abs_offset;
                    }
                }
                if let Some(rel_offset) = rel_offset {
                    (anchor_offset, rel_offset)
                } else {
                    (anchor_offset, (std::cmp::max(1, s.visible_lines) - 1) / 2)
                }
            }
        } else if s.entry_count >= s.visible_lines {
            if let Some(mut abs_offset) = plain_rel_to_abs(s, 0) {
                let rel_offset = (std::cmp::max(1, s.visible_lines) - 1) / 2;
                for _ in 0..rel_offset {
                    abs_offset = s.store[abs_offset].next_offset as usize;
                }
                (abs_offset, rel_offset)
            } else {
                (0, 0)
            }
        } else {
            (0, 0)
        }
    };

    let mut next_entry_id = 0;
    let mut first: Option<usize> = None;
    let mut prev: Option<usize> = None;
    let mut prev_offset: u32 = 0;
    for offset in 0..s.store.len() {
        if filter(s.store[offset].source_id) {
            if active {
                s.store[offset].visible &= !mask;
            } else {
                s.store[offset].visible |= mask;
            }
        }
        if s.store[offset].visible == 0 {
            s.store[offset].entry_id = next_entry_id;
            next_entry_id += 1;
            match prev {
                Some(p) => s.store[p].next_offset = offset as u32,
                None => first = Some(offset),
            }
            s.store[offset].prev_offset = prev_offset;
            prev_offset = offset as u32;
            prev = Some(offset);
        }
    }
    s.last_offset = prev_offset as usize;
    if let Some(p) = prev {
        s.store[p].next_offset = prev_offset;
    }
    s.entry_count = next_entry_id as usize;
    s.first_offset = first.unwrap_or(prev_offset as usize);
    if !s.store.is_empty() {
        let first_offset = s.first_offset;
        s.store[first_offset].prev_offset = first_offset as u32;
    }

    if !s.store.is_empty() && s.store[tmp_anchor_offset].visible == 0 {
        s.viewport_offset = tmp_anchor_offset;
        plain_scroll(s, -(rel_offset as i64), s.visible_lines);
    } else {
        let found = s
            .store
            .iter()
            .enumerate()
            .skip(tmp_anchor_offset)
            .filter(|(_, x)| x.visible == 0)
            .map(|(offset, _)| offset)
            .next();
        match found {
            Some(offset) => s.viewport_offset = offset,
            None => s.viewport_offset = s.last_offset,
        }
        plain_scroll(s, -(rel_offset as i64), s.visible_lines);
    }
}

fn plain_set_visible_lines(s: &mut PlainStore, visible_lines: usize) {
    s.visible_lines = visible_lines;
    if s.store.len() < s.visible_lines {
        s.viewport_offset = 0;
    } else if s.viewport_offset > s.store.len() - s.visible_lines {
        s.viewport_offset = s.store.len() - s.visible_lines;
    }
}

fn plain_click(s: &mut PlainStore, line: usize) {
    if line < s.visible_lines {
        s.anchor_offset = plain_rel_to_abs(s, line);
    }
}

fn stores(source_ids: &[u32]) -> (PlainStore, LogStoreLinear) {
    let mut plain = PlainStore {
        store: source_ids
            .iter()
            .map(|id| PlainEntry {
                source_id: *id,
                visible: 0,
                entry_id: 0,
                prev_offset: 0,
                next_offset: 0,
            })
            .collect(),
        entry_count: 0,
        first_offset: 0,
        last_offset: 0,
        anchor_offset: None,
        visible_lines: 0,
        viewport_offset: 0,
    };
    plain_filter(&mut plain, &|_| true, true, 1);
    let entries = source_ids
        .iter()
        .enumerate()
        .map(|(i, id)| LogEntryExt {
            timestamp: Timestamp { secs: i as i64, nanos: 0 },
            severity: LogLevel::Info,
            message: String::new(),
            source_id: *id,
            visible: VISIBLE_ON,
            entry_id: 0,
            prev_offset: 0,
            next_offset: 0,
        })
        .collect();
    (plain, LogStoreLinear::from_entries(entries).unwrap())
}

fn assert_same(plain: &PlainStore, store: &LogStoreLinear, step: &str) {
    assert_eq!(plain.entry_count, store.entry_count, "count after {}", step);
    assert_eq!(plain.first_offset, store.first_offset, "first after {}", step);
    assert_eq!(plain.last_offset, store.last_offset, "last after {}", step);
    assert_eq!(plain.viewport_offset, store.viewport_offset, "viewport after {}", step);
    assert_eq!(plain.anchor_offset, store.anchor_offset, "anchor after {}", step);
    assert_eq!(plain.visible_lines, store.visible_lines, "rows after {}", step);
    for (offset, (a, b)) in plain.store.iter().zip(store.store.iter()).enumerate() {
        assert_eq!(a.visible, b.visible, "mask of {} after {}", offset, step);
        assert_eq!(a.entry_id, b.entry_id, "rank of {} after {}", offset, step);
        assert_eq!(a.prev_offset, b.prev_offset, "prev of {} after {}", offset, step);
        assert_eq!(a.next_offset, b.next_offset, "next of {} after {}", offset, step);
    }
}

struct Dice(u64);

fn roll(dice: &mut Dice, sides: u64) -> u64 {
    dice.0 = dice.0.wrapping_mul(6364136223846793005).wrapping_add(1442695040888963407);
    (dice.0 >> 33) % sides
}

fn walk_through(seed: u64, entries: usize, sources: u32, steps: usize) {
    let mut dice = Dice(seed);
    let source_ids: Vec<u32> = (0..entries).map(|_| roll(&mut dice, sources as u64) as u32).collect();
    let (mut plain, mut store) = stores(&source_ids);
    assert_same(&plain, &store, "start");
    for step in 0..steps {
        let what = match roll(&mut dice, 6) {
            0 => {
                let lines = roll(&mut dice, 15) as usize;
                plain_set_visible_lines(&mut plain, lines);
                store.set_visible_lines(lines);
                format!("step {}: {} rows", step, lines)
            }
            1 | 2 => {
                let lines = roll(&mut dice, 21) as i64 - 10;
                let window = plain.visible_lines;
                let a = plain_scroll(&mut plain, lines, window);
                let b = store.scroll(lines, window);
                assert_eq!(a, b, "moved at step {}", step);
                format!("step {}: scroll {}", step, lines)
            }
            3 => {
                let line = roll(&mut dice, 16) as usize;
                plain_click(&mut plain, line);
                store.click_line(line);
                format!("step {}: click {}", step, line)
            }
            _ => {
                let low = roll(&mut dice, sources as u64) as u32;
                let high = low + roll(&mut dice, 3) as u32;
                let active = roll(&mut dice, 2) == 0;
                let mask = 1u8 << roll(&mut dice, 3);
                plain_filter(&mut plain, &|id| low <= id && id <= high, active, mask);
                store.filter_store(
                    &|e: &LogEntryExt| low <= e.source_id && e.source_id <= high,
                    active,
                    mask,
                );
                format!("step {}: filter {}..={} {} {}", step, low, high, active, mask)
            }
        };
        assert_same(&plain, &store, &what);
        for rel in 0..4 {
            assert_eq!(plain_rel_to_abs(&plain, rel), store.rel_to_abs_offset(rel), "{}", what);
        }
        for abs in 0..entries + 1 {
            assert_eq!(plain_abs_to_rel(&plain, abs), store.abs_to_rel_offset(abs), "{}", what);
        }
    }
}

#[test]
fn a_small_store_with_few_sources() {
    walk_through(1, 12, 3, 400);
}

#[test]
fn a_store_with_many_sources() {
    walk_through(2, 60, 9, 400);
}

#[test]
fn a_store_of_one_entry() {
    walk_through(3, 1, 2, 200);
}

#[test]
fn a_store_without_entries() {
    walk_through(4, 0, 2, 100);
}

#[test]
fn many_short_walks() {
    for seed in 10..60 {
        walk_through(seed, 25, 4, 60);
    }
}
