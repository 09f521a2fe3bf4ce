//! Checks, against ratatui itself, what the layout module relies on of
//! `Layout::split`: when every constraint fits, the parts are laid one
//! after the other from the start, `Length` parts at their length and the
//! single `Min` part taking the rest; and every part lies within the area.

use ratatui::layout::{Constraint, Direction, Layout, Rect};

struct Lcg(u64);

impl Lcg {
    fn next(&mut self, bound: u64) -> u64 {
        self.0 = self.0.wrapping_mul(6364136223846793005).wrapping_add(1442695040888963407);
        (self.0 >> 33) % bound
    }
}

fn planned(area: Rect, vertical: bool, cs: &[Constraint]) -> Vec<Rect> {
    let extent = if vertical { area.height } else { area.width };
    let lengths: u16 = cs.iter().map(|c| if let Constraint::Length(n) = c { *n } else { 0 }).sum();
    let rest = extent - lengths;
    let mut at = if vertical { area.y } else { area.x };
    cs.iter()
        .map(|c| {
            let len = if let Constraint::Length(n) = c { *n } else { rest };
            let r = if vertical {
                Rect { x: area.x, y: at, width: area.width, height: len }
            } else {
                Rect { x: at, y: area.y, width: len, height: area.height }
            };
            at += len;
            r
        })
        .collect()
}

#[test]
fn fitting_splits_follow_the_plan() {
    let mut rng = Lcg(7);
    for _ in 0..600 {
        let n = 1 + rng.next(7) as usize;
        let min_at = rng.next(n as u64 + 1) as usize; // == n: no Min
        let cs: Vec<Constraint> = (0..n)
            .map(|i| {
                if i == min_at {
                    Constraint::Min(rng.next(25) as u16)
                } else {
                    Constraint::Length(rng.next(40) as u16)
                }
            })
            .collect();
        let need: u16 = cs
            .iter()
            .map(|c| match c {
                Constraint::Length(n) | Constraint::Min(n) => *n,
                _ => 0,
            })
            .sum();
        let vertical = rng.next(2) == 0;
        let extent = need + rng.next(60) as u16;
        let start = rng.next(200) as u16;
        let cross = 1 + rng.next(100) as u16;
        let area = if vertical {
            Rect { x: 3, y: start, width: cross, height: extent }
        } else {
            Rect { x: start, y: 4, width: extent, height: cross }
        };
        let dir = if vertical { Direction::Vertical } else { Direction::Horizontal };
        let parts = Layout::default().direction(dir).constraints(cs.clone()).split(area);
        assert_eq!(parts.to_vec(), planned(area, vertical, &cs), "{:?} in {:?}", cs, area);
    }
}

#[test]
fn crowded_splits_stay_within_the_area() {
    let mut rng = Lcg(11);
    for _ in 0..400 {
        let n = 1 + rng.next(7) as usize;
        let cs: Vec<Constraint> = (0..n)
            .map(|_| {
                if rng.next(3) == 0 {
                    Constraint::Min(rng.next(25) as u16)
                } else {
                    Constraint::Length(rng.next(40) as u16)
                }
            })
            .collect();
        let area = Rect { x: 5, y: 7, width: rng.next(80) as u16, height: rng.next(80) as u16 };
        let parts = Layout::default().direction(Direction::Vertical).constraints(cs.clone()).split(area);
        assert_eq!(parts.len(), cs.len());
        for p in parts.iter() {
            assert_eq!((p.x, p.width), (area.x, area.width));
            assert!(p.y >= area.y && p.y + p.height <= area.y + area.height, "{:?} {:?}", cs, area);
        }
    }
}
