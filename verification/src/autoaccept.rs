use vstd::prelude::*;

use crate::text::{chars_of, lemma_strs_push, owned, same, strs_of};
use crate::types::AutoAcceptGame;

verus! {

// ---------------------------------------------------------------------------
// Supported games
// ---------------------------------------------------------------------------

/// The supported games: key, display name, process names.
pub open spec fn game_table() -> Seq<(Seq<char>, Seq<char>, Seq<Seq<char>>)> {
    seq![
        ("dota2"@, "Dota 2"@, seq!["dota2"@]),
        ("cs2"@, "CS2 / CS:GO"@, seq!["cs2"@, "csgo"@]),
        ("valorant"@, "Valorant"@, seq!["valorant"@]),
        ("lol"@, "LoL / TFT"@, seq!["league of legends"@]),
        ("apex"@, "Apex Legends"@, seq!["r5apex"@]),
    ]
}

pub open spec fn game_matches(g: AutoAcceptGame, t: (Seq<char>, Seq<char>, Seq<Seq<char>>)) -> bool {
    g.key@ == t.0 && g.name@ == t.1 && strs_of(g.processes@) == t.2
}

fn game(key: &str, name: &str, processes: Vec<String>) -> (g: AutoAcceptGame)
    ensures
        g.key@ == key@,
        g.name@ == name@,
        g.processes == processes,
{
    AutoAcceptGame { key: owned(key), name: owned(name), processes }
}

fn names1(a: &str) -> (r: Vec<String>)
    ensures
        strs_of(r@) == seq![a@],
{
    let mut r = Vec::new();
    r.push(owned(a));
    assert(strs_of(r@) =~= seq![a@]);
    r
}

/// The games whose accept button can be clicked automatically.
pub fn auto_accept_games() -> (r: Vec<AutoAcceptGame>)
    ensures
        r@.len() == game_table().len(),
        forall|i: int| 0 <= i < r@.len() ==> game_matches(#[trigger] r@[i], game_table()[i]),
{
    let mut r: Vec<AutoAcceptGame> = Vec::new();
    r.push(game("dota2", "Dota 2", names1("dota2")));
    let mut cs = Vec::new();
    cs.push(owned("cs2"));
    cs.push(owned("csgo"));
    assert(strs_of(cs@) =~= seq!["cs2"@, "csgo"@]);
    r.push(game("cs2", "CS2 / CS:GO", cs));
    r.push(game("valorant", "Valorant", names1("valorant")));
    r.push(game("lol", "LoL / TFT", names1("league of legends")));
    r.push(game("apex", "Apex Legends", names1("r5apex")));
    r
}

/// Process names of the selected games, game by game in table order.
pub open spec fn selected_processes_upto(sel: Seq<Seq<char>>, n: nat) -> Seq<Seq<char>>
    decreases n,
{
    if n == 0 || n > game_table().len() {
        seq![]
    } else {
        let prev = selected_processes_upto(sel, (n - 1) as nat);
        let g = game_table()[n - 1];
        if sel.contains(g.0) {
            prev + g.2
        } else {
            prev
        }
    }
}

pub open spec fn selected_processes(sel: Seq<Seq<char>>) -> Seq<Seq<char>> {
    selected_processes_upto(sel, game_table().len())
}

fn contains_name(list: &Vec<String>, name: &Vec<char>) -> (r: bool)
    ensures
        r == strs_of(list@).contains(name@),
{
    for i in 0..list.len()
        invariant
            forall|k: int| 0 <= k < i ==> list@[k]@ != name@,
    {
        let c = chars_of(list[i].as_str());
        if same(&c, name) {
            assert(strs_of(list@)[i as int] == name@);
            return true;
        }
    }
    assert forall|k: int| 0 <= k < strs_of(list@).len() implies strs_of(list@)[k] != name@ by {
        assert(strs_of(list@)[k] == list@[k]@);
    }
    false
}

/// The process names to watch for, given the keys of the selected games.
pub fn selected_auto_accept_processes(selected: &Vec<String>) -> (r: Vec<String>)
    ensures
        strs_of(r@) == selected_processes(strs_of(selected@)),
{
    let games = auto_accept_games();
    let mut r: Vec<String> = Vec::new();
    let ghost sel = strs_of(selected@);
    for i in 0..games.len()
        invariant
            games@.len() == game_table().len(),
            forall|j: int| 0 <= j < games@.len() ==> game_matches(#[trigger] games@[j], game_table()[j]),
            sel == strs_of(selected@),
            strs_of(r@) == selected_processes_upto(sel, i as nat),
    {
        let g = &games[i];
        let key = chars_of(g.key.as_str());
        assert(game_matches(games@[i as int], game_table()[i as int]));
        if contains_name(selected, &key) {
            let procs = &g.processes;
            let ghost before = strs_of(r@);
            for j in 0..procs.len()
                invariant
                    strs_of(r@) == before + strs_of(procs@).take(j as int),
            {
                let ghost r0 = r@;
                let item = owned(procs[j].as_str());
                r.push(item);
                proof {
                    lemma_strs_push(r0, item);
                }
                assert(strs_of(procs@).take(j + 1) =~= strs_of(procs@).take(j as int).push(
                    procs@[j as int]@,
                ));
                assert(strs_of(r@) =~= before + strs_of(procs@).take(j + 1));
            }
            assert(strs_of(procs@).take(procs@.len() as int) =~= strs_of(procs@));
        }
    }
    r
}

// ---------------------------------------------------------------------------
// Finding the accept button in a screen capture
// ---------------------------------------------------------------------------

/// What a scan of the capture has gathered about the green pixels.
pub struct GreenArea {
    pub count: nat,
    pub min_x: int,
    pub max_x: int,
    pub min_y: int,
    pub max_y: int,
}

pub open spec fn no_green() -> GreenArea {
    GreenArea { count: 0, min_x: 2147483647, max_x: -2147483648, min_y: 2147483647, max_y: -2147483648 }
}

/// Pixel (x, y) of a top-down BGRA capture `w` pixels wide is a saturated
/// green: green above 120 and more than 40 above both red and blue.
pub open spec fn is_green(p: Seq<u8>, w: int, x: int, y: int) -> bool {
    let i = (y * w + x) * 4;
    let b = p[i] as int;
    let g = p[i + 1] as int;
    let r = p[i + 2] as int;
    g > 120 && g > r + 40 && g > b + 40
}

pub open spec fn add_pixel(a: GreenArea, x: int, y: int) -> GreenArea {
    GreenArea {
        count: a.count + 1,
        min_x: if x < a.min_x {
            x
        } else {
            a.min_x
        },
        max_x: if x > a.max_x {
            x
        } else {
            a.max_x
        },
        min_y: if y < a.min_y {
            y
        } else {
            a.min_y
        },
        max_y: if y > a.max_y {
            y
        } else {
            a.max_y
        },
    }
}

/// The area after the first `n` pixels of row `y`, starting from `a`.
pub open spec fn scan_row(p: Seq<u8>, w: int, y: int, n: nat, a: GreenArea) -> GreenArea
    decreases n,
{
    if n == 0 {
        a
    } else {
        let prev = scan_row(p, w, y, (n - 1) as nat, a);
        if is_green(p, w, n - 1, y) {
            add_pixel(prev, n - 1, y)
        } else {
            prev
        }
    }
}

/// The area after the first `m` rows.
pub open spec fn scan_rows(p: Seq<u8>, w: int, m: nat) -> GreenArea
    decreases m,
{
    if m == 0 {
        no_green()
    } else {
        scan_row(p, w, m - 1, if w > 0 {
            w as nat
        } else {
            0
        }, scan_rows(p, w, (m - 1) as nat))
    }
}

/// Where the accept button is, if the capture shows it: at least 200 green
/// pixels whose bounding box is at least 8% of the capture wide, 5% high, and
/// at most three times as high as wide. The point is the box centre, in
/// screen coordinates (the capture's top left corner is at `(sx, sy)`).
pub open spec fn accept_button(sx: int, sy: int, w: int, h: int, p: Seq<u8>) -> Option<(int, int)> {
    let a = scan_rows(p, w, if h > 0 {
        h as nat
    } else {
        0
    });
    let min_w = if w > 0 {
        (2 * w) / 25
    } else {
        0
    };
    let min_h = if h > 0 {
        h / 20
    } else {
        0
    };
    if a.count < 200 {
        None
    } else {
        let bw = a.max_x - a.min_x;
        let bh = a.max_y - a.min_y;
        if bw < min_w || bh < min_h || bh > bw * 3 {
            None
        } else {
            Some((sx + (a.min_x + a.max_x) / 2, sy + (a.min_y + a.max_y) / 2))
        }
    }
}

/// The area is either empty or a box inside columns `0..w`, rows `0..=y`.
pub open spec fn area_ok(a: GreenArea, w: int, y: int) -> bool {
    &&& a.count == 0 ==> a == no_green()
    &&& a.count > 0 ==> 0 <= a.min_x <= a.max_x < w && 0 <= a.min_y <= a.max_y <= y
}

pub proof fn lemma_scan_row_ok(p: Seq<u8>, w: int, y: int, n: nat, a: GreenArea)
    requires
        area_ok(a, w, y),
        n <= w,
        0 <= y,
        w <= 2147483647,
    ensures
        area_ok(scan_row(p, w, y, n, a), w, y),
        scan_row(p, w, y, n, a).count <= a.count + n,
    decreases n,
{
    if n > 0 {
        lemma_scan_row_ok(p, w, y, (n - 1) as nat, a);
    }
}

pub proof fn lemma_scan_rows_ok(p: Seq<u8>, w: int, m: nat)
    requires
        0 < w <= 2147483647,
    ensures
        m > 0 ==> area_ok(scan_rows(p, w, m), w, m - 1),
        m == 0 ==> scan_rows(p, w, m) == no_green(),
        scan_rows(p, w, m).count <= m * w,
    decreases m,
{
    if m > 0 {
        lemma_scan_rows_ok(p, w, (m - 1) as nat);
        let prev = scan_rows(p, w, (m - 1) as nat);
        assert(area_ok(prev, w, m - 1));
        lemma_scan_row_ok(p, w, m - 1, w as nat, prev);
        assert((m - 1) * w + w == m * w) by (nonlinear_arith);
    }
}

pub proof fn lemma_no_width(p: Seq<u8>, w: int, m: nat)
    requires
        w <= 0,
    ensures
        scan_rows(p, w, m) == no_green(),
    decreases m,
{
    if m > 0 {
        lemma_no_width(p, w, (m - 1) as nat);
    }
}

/// Looks for the green accept button in a capture of `w` by `h` pixels
/// (4 bytes each, blue, green, red, unused; rows top-down) taken at screen
/// position `(sx, sy)`, and gives the point to click.
pub fn find_accept_button(sx: i32, sy: i32, w: i32, h: i32, pixels: &[u8]) -> (r: Option<(i32, i32)>)
    requires
        w > 0 && h > 0 ==> pixels@.len() >= 4 * (w as int) * (h as int),
        accept_button(sx as int, sy as int, w as int, h as int, pixels@) matches Some(c) ==> c.0
            <= i32::MAX && c.1 <= i32::MAX,
    ensures
        r matches Some(c) ==> accept_button(sx as int, sy as int, w as int, h as int, pixels@)
            == Some((c.0 as int, c.1 as int)),
        r is None ==> accept_button(sx as int, sy as int, w as int, h as int, pixels@) is None,
        r matches Some(c) ==> sx <= c.0 < sx + w && sy <= c.1 < sy + h,
{
    if w <= 0 || h <= 0 {
        proof {
            if w <= 0 {
                lemma_no_width(pixels@, w as int, if h > 0 {
                    h as nat
                } else {
                    0
                });
            }
        }
        return None;
    }
    let ghost p = pixels@;
    let min_w: i32 = ((w as i64) * 2 / 25) as i32;
    let min_h: i32 = ((h as i64) / 20) as i32;
    let mut min_x: i32 = i32::MAX;
    let mut max_x: i32 = i32::MIN;
    let mut min_y: i32 = i32::MAX;
    let mut max_y: i32 = i32::MIN;
    let mut count: u64 = 0;
    let mut y: i32 = 0;
    let n = pixels.len();
    proof {
        lemma_scan_rows_ok(p, w as int, 0);
    }
    while y < h
        invariant
            0 < w,
            0 < h,
            p == pixels@,
            n == p.len(),
            p.len() >= 4 * (w as int) * (h as int),
            0 <= y <= h,
            scan_rows(p, w as int, y as nat) == (GreenArea {
                count: count as nat,
                min_x: min_x as int,
                max_x: max_x as int,
                min_y: min_y as int,
                max_y: max_y as int,
            }),
        decreases h - y,
    {
        let ghost start = scan_rows(p, w as int, y as nat);
        proof {
            lemma_scan_rows_ok(p, w as int, y as nat);
            assert(count as int <= (y as int) * (w as int));
            assert((y as int) * (w as int) <= (h as int) * (w as int)) by (nonlinear_arith)
                requires
                    0 <= y <= h,
                    w > 0,
            ;
            if y > 0 {
                assert(area_ok(start, w as int, y - 1));
            } else {
                assert(start == no_green());
            }
            assert(area_ok(start, w as int, y as int));
        }
        proof {
            assert((y as int) * (w as int) * 4 + 4 * (w as int) <= 4 * (w as int) * (h as int))
                by (nonlinear_arith)
                requires
                    0 <= y < h,
                    w > 0,
            ;
            assert((y as int) * (w as int) <= (y as int) * (w as int) * 4) by (nonlinear_arith)
                requires
                    0 <= y,
                    w > 0,
            ;
        }
        let row: usize = (y as usize) * (w as usize) * 4;
        let mut x: i32 = 0;
        while x < w
            invariant
                0 < w,
                0 < h,
                p == pixels@,
                n == p.len(),
                p.len() >= 4 * (w as int) * (h as int),
                0 <= y < h,
                0 <= x <= w,
                row == (y as int) * (w as int) * 4,
                (y as int) * (w as int) * 4 + 4 * (w as int) <= 4 * (w as int) * (h as int),
                area_ok(start, w as int, y as int),
                start.count <= (y as int) * (w as int),
                (y as int) * (w as int) <= (h as int) * (w as int),
                scan_row(p, w as int, y as int, x as nat, start) == (GreenArea {
                    count: count as nat,
                    min_x: min_x as int,
                    max_x: max_x as int,
                    min_y: min_y as int,
                    max_y: max_y as int,
                }),
            decreases w - x,
        {
            let i: usize = row + (x as usize) * 4;
            proof {
                lemma_scan_row_ok(p, w as int, y as int, x as nat, start);
                assert(i == ((y as int) * (w as int) + (x as int)) * 4) by (nonlinear_arith)
                    requires
                        row == (y as int) * (w as int) * 4,
                        i == row + (x as int) * 4,
                ;
                assert((y as int) * (w as int) + (x as int) < (h as int) * (w as int))
                    by (nonlinear_arith)
                    requires
                        0 <= y < h,
                        0 <= x < w,
                ;
                assert((h as int) * (w as int) <= 4 * (w as int) * (h as int)) by (nonlinear_arith)
                    requires
                        0 < h,
                        0 < w,
                ;
            }
            let b = pixels[i] as i32;
            let g = pixels[i + 1] as i32;
            let r = pixels[i + 2] as i32;
            if g > 120 && g > r + 40 && g > b + 40 {
                if x < min_x {
                    min_x = x;
                }
                if x > max_x {
                    max_x = x;
                }
                if y < min_y {
                    min_y = y;
                }
                if y > max_y {
                    max_y = y;
                }
                count += 1;
            }
            x += 1;
        }
        proof {
            assert(scan_rows(p, w as int, (y + 1) as nat) == scan_row(p, w as int, y as int, w as nat, start));
        }
        y += 1;
    }
    proof {
        lemma_scan_rows_ok(p, w as int, h as nat);
    }
    if count < 200 {
        return None;
    }
    let bw: i64 = max_x as i64 - min_x as i64;
    let bh: i64 = max_y as i64 - min_y as i64;
    if bw < min_w as i64 || bh < min_h as i64 || bh > bw * 3 {
        return None;
    }
    let cx: i64 = sx as i64 + (min_x as i64 + max_x as i64) / 2;
    let cy: i64 = sy as i64 + (min_y as i64 + max_y as i64) / 2;
    Some((cx as i32, cy as i32))
}

// ---------------------------------------------------------------------------
// The button is the bounding box of the green pixels
// ---------------------------------------------------------------------------

/// Pixel `(x, y)` comes before pixel `n` of row `y0` in scan order.
pub open spec fn scanned(w: int, y0: int, n: int, x: int, y: int) -> bool {
    ||| (0 <= y < y0 && 0 <= x < w)
    ||| (y == y0 && 0 <= x < n)
}

/// `a` is the bounding box of the green pixels scanned before pixel `n` of
/// row `y0`, each side touched by one of them, or `no_green()` if none.
pub open spec fn box_of_scanned(a: GreenArea, p: Seq<u8>, w: int, y0: int, n: int) -> bool {
    &&& forall|x: int, y: int|
        scanned(w, y0, n, x, y) && #[trigger] is_green(p, w, x, y) ==> a.count > 0 && a.min_x <= x
            <= a.max_x && a.min_y <= y <= a.max_y
    &&& a.count == 0 ==> a == no_green()
    &&& a.count > 0 ==> exists|x: int, y: int|
        scanned(w, y0, n, x, y) && #[trigger] is_green(p, w, x, y) && x == a.min_x
    &&& a.count > 0 ==> exists|x: int, y: int|
        scanned(w, y0, n, x, y) && #[trigger] is_green(p, w, x, y) && x == a.max_x
    &&& a.count > 0 ==> exists|x: int, y: int|
        scanned(w, y0, n, x, y) && #[trigger] is_green(p, w, x, y) && y == a.min_y
    &&& a.count > 0 ==> exists|x: int, y: int|
        scanned(w, y0, n, x, y) && #[trigger] is_green(p, w, x, y) && y == a.max_y
}

proof fn lemma_scan_row_box(p: Seq<u8>, w: int, y0: int, n: nat, a: GreenArea)
    requires
        0 < w <= 2147483647,
        0 <= y0 < 2147483647,
        n <= w,
        box_of_scanned(a, p, w, y0, 0),
    ensures
        box_of_scanned(scan_row(p, w, y0, n, a), p, w, y0, n as int),
    decreases n,
{
    if n > 0 {
        lemma_scan_row_box(p, w, y0, (n - 1) as nat, a);
        let prev = scan_row(p, w, y0, (n - 1) as nat, a);
        let cur = scan_row(p, w, y0, n, a);
        let m = n - 1;
        assert forall|x: int, y: int| scanned(w, y0, n as int, x, y) && #[trigger] is_green(p, w, x, y) implies cur.count
            > 0 && cur.min_x <= x <= cur.max_x && cur.min_y <= y <= cur.max_y by {
            if !(y == y0 && x == m) {
                assert(scanned(w, y0, m, x, y));
            }
        }
        if is_green(p, w, m, y0) {
            assert(scanned(w, y0, n as int, m, y0));
            if prev.count > 0 {
                let (ax, ay) = choose|x: int, y: int|
                    scanned(w, y0, m, x, y) && #[trigger] is_green(p, w, x, y) && x == prev.min_x;
                assert(scanned(w, y0, n as int, ax, ay));
                let (bx, by) = choose|x: int, y: int|
                    scanned(w, y0, m, x, y) && #[trigger] is_green(p, w, x, y) && x == prev.max_x;
                assert(scanned(w, y0, n as int, bx, by));
                let (cx, cy) = choose|x: int, y: int|
                    scanned(w, y0, m, x, y) && #[trigger] is_green(p, w, x, y) && y == prev.min_y;
                assert(scanned(w, y0, n as int, cx, cy));
                let (dx, dy) = choose|x: int, y: int|
                    scanned(w, y0, m, x, y) && #[trigger] is_green(p, w, x, y) && y == prev.max_y;
                assert(scanned(w, y0, n as int, dx, dy));
            }
        } else {
            if prev.count > 0 {
                let (ax, ay) = choose|x: int, y: int|
                    scanned(w, y0, m, x, y) && #[trigger] is_green(p, w, x, y) && x == prev.min_x;
                assert(scanned(w, y0, n as int, ax, ay));
                let (bx, by) = choose|x: int, y: int|
                    scanned(w, y0, m, x, y) && #[trigger] is_green(p, w, x, y) && x == prev.max_x;
                assert(scanned(w, y0, n as int, bx, by));
                let (cx, cy) = choose|x: int, y: int|
                    scanned(w, y0, m, x, y) && #[trigger] is_green(p, w, x, y) && y == prev.min_y;
                assert(scanned(w, y0, n as int, cx, cy));
                let (dx, dy) = choose|x: int, y: int|
                    scanned(w, y0, m, x, y) && #[trigger] is_green(p, w, x, y) && y == prev.max_y;
                assert(scanned(w, y0, n as int, dx, dy));
            }
        }
    }
}

proof fn lemma_scan_rows_box(p: Seq<u8>, w: int, m: nat)
    requires
        0 < w <= 2147483647,
        m <= 2147483647,
    ensures
        box_of_scanned(scan_rows(p, w, m), p, w, m as int, 0),
    decreases m,
{
    if m > 0 {
        lemma_scan_rows_box(p, w, (m - 1) as nat);
        let prev = scan_rows(p, w, (m - 1) as nat);
        lemma_scan_row_box(p, w, m - 1, w as nat, prev);
        let cur = scan_rows(p, w, m);
        assert forall|x: int, y: int|
            scanned(w, m as int, 0, x, y) implies #[trigger] scanned(w, m - 1, w, x, y) by {}
        assert forall|x: int, y: int|
            scanned(w, m - 1, w, x, y) implies #[trigger] scanned(w, m as int, 0, x, y) by {}
    }
}

/// Some green pixel of the `w` by `h` capture lies in column `x`.
pub open spec fn green_in_column(p: Seq<u8>, w: int, h: int, x: int) -> bool {
    exists|y: int| 0 <= x < w && 0 <= y < h && #[trigger] is_green(p, w, x, y)
}

/// Some green pixel of the `w` by `h` capture lies in row `y`.
pub open spec fn green_in_row(p: Seq<u8>, w: int, h: int, y: int) -> bool {
    exists|x: int| 0 <= x < w && 0 <= y < h && #[trigger] is_green(p, w, x, y)
}

/// Every green pixel of the capture lies in columns `x0..=x1`, rows `y0..=y1`.
pub open spec fn greens_within(p: Seq<u8>, w: int, h: int, x0: int, x1: int, y0: int, y1: int) -> bool {
    forall|x: int, y: int|
        0 <= x < w && 0 <= y < h && #[trigger] is_green(p, w, x, y) ==> x0 <= x <= x1 && y0 <= y <= y1
}

/// The point to click is the centre of the box around the green pixels of
/// the capture, and that box is at least 8% of the capture wide and 5% high
/// and at most three times as high as wide: a thin bar or a scattered
/// handful of green pixels is no button.
pub proof fn law_accept_button_is_green_box(sx: i32, sy: i32, w: i32, h: i32, p: Seq<u8>)
    ensures
        accept_button(sx as int, sy as int, w as int, h as int, p) matches Some(c) ==> exists|x0: int, x1: int, y0: int, y1: int|
            {
                &&& green_in_column(p, w as int, h as int, x0) && green_in_column(p, w as int, h as int, x1)
                &&& green_in_row(p, w as int, h as int, y0) && green_in_row(p, w as int, h as int, y1)
                &&& #[trigger] greens_within(p, w as int, h as int, x0, x1, y0, y1)
                &&& x1 - x0 >= (2 * w) / 25 && y1 - y0 >= h / 20 && y1 - y0 <= 3 * (x1 - x0)
                &&& c == (sx + (x0 + x1) / 2, sy + (y0 + y1) / 2)
            },
        accept_button(sx as int, sy as int, w as int, h as int, p) is Some ==> w > 0 && h > 0 && scan_rows(
            p,
            w as int,
            h as nat,
        ).count >= 200,
{
    let (sx, sy, w, h) = (sx as int, sy as int, w as int, h as int);
    if accept_button(sx, sy, w, h, p) is Some {
        if w <= 0 {
            lemma_no_width(p, w, if h > 0 {
                h as nat
            } else {
                0
            });
        }
        assert(w > 0 && h > 0);
        let a = scan_rows(p, w, h as nat);
        lemma_scan_rows_box(p, w, h as nat);
        assert(a.count > 0);
        let (ax, ay) = choose|x: int, y: int|
            scanned(w, h, 0, x, y) && #[trigger] is_green(p, w, x, y) && x == a.min_x;
        assert(green_in_column(p, w, h, a.min_x));
        let (bx, by) = choose|x: int, y: int|
            scanned(w, h, 0, x, y) && #[trigger] is_green(p, w, x, y) && x == a.max_x;
        assert(green_in_column(p, w, h, a.max_x));
        let (cx, cy) = choose|x: int, y: int|
            scanned(w, h, 0, x, y) && #[trigger] is_green(p, w, x, y) && y == a.min_y;
        assert(green_in_row(p, w, h, a.min_y));
        let (dx, dy) = choose|x: int, y: int|
            scanned(w, h, 0, x, y) && #[trigger] is_green(p, w, x, y) && y == a.max_y;
        assert(green_in_row(p, w, h, a.max_y));
        assert forall|x: int, y: int|
            0 <= x < w && 0 <= y < h && #[trigger] is_green(p, w, x, y) implies a.min_x <= x <= a.max_x
            && a.min_y <= y <= a.max_y by {
            assert(scanned(w, h, 0, x, y));
        }
        assert(greens_within(p, w, h, a.min_x, a.max_x, a.min_y, a.max_y));
    }
}

/// A capture whose green pixels number at least 200 and whose box around
/// them (touched on every side by a green pixel) is at least 8% of the
/// capture wide and 5% high and at most three times as high as wide shows
/// the button, at the centre of that box.
pub proof fn law_green_box_is_accept_button(
    sx: i32,
    sy: i32,
    w: i32,
    h: i32,
    p: Seq<u8>,
    x0: int,
    x1: int,
    y0: int,
    y1: int,
)
    requires
        w > 0,
        h > 0,
        scan_rows(p, w as int, h as nat).count >= 200,
        green_in_column(p, w as int, h as int, x0) && green_in_column(p, w as int, h as int, x1),
        green_in_row(p, w as int, h as int, y0) && green_in_row(p, w as int, h as int, y1),
        greens_within(p, w as int, h as int, x0, x1, y0, y1),
        x1 - x0 >= (2 * w) / 25 && y1 - y0 >= h / 20 && y1 - y0 <= 3 * (x1 - x0),
    ensures
        accept_button(sx as int, sy as int, w as int, h as int, p) == Some(
            (sx + (x0 + x1) / 2, sy + (y0 + y1) / 2),
        ),
{
    let (wi, hi) = (w as int, h as int);
    let a = scan_rows(p, wi, h as nat);
    lemma_scan_rows_box(p, wi, h as nat);
    let ya = choose|y: int| 0 <= x0 < wi && 0 <= y < hi && #[trigger] is_green(p, wi, x0, y);
    assert(scanned(wi, hi, 0, x0, ya));
    let yb = choose|y: int| 0 <= x1 < wi && 0 <= y < hi && #[trigger] is_green(p, wi, x1, y);
    assert(scanned(wi, hi, 0, x1, yb));
    let xa = choose|x: int| 0 <= x < wi && 0 <= y0 < hi && #[trigger] is_green(p, wi, x, y0);
    assert(scanned(wi, hi, 0, xa, y0));
    let xb = choose|x: int| 0 <= x < wi && 0 <= y1 < hi && #[trigger] is_green(p, wi, x, y1);
    assert(scanned(wi, hi, 0, xb, y1));
    let (ax, ay) = choose|x: int, y: int| scanned(wi, hi, 0, x, y) && #[trigger] is_green(p, wi, x, y) && x == a.min_x;
    let (bx, by) = choose|x: int, y: int| scanned(wi, hi, 0, x, y) && #[trigger] is_green(p, wi, x, y) && x == a.max_x;
    let (cx, cy) = choose|x: int, y: int| scanned(wi, hi, 0, x, y) && #[trigger] is_green(p, wi, x, y) && y == a.min_y;
    let (dx, dy) = choose|x: int, y: int| scanned(wi, hi, 0, x, y) && #[trigger] is_green(p, wi, x, y) && y == a.max_y;
    assert(a.min_x == x0 && a.max_x == x1 && a.min_y == y0 && a.max_y == y1);
}

// ---------------------------------------------------------------------------
// The watcher loop
// ---------------------------------------------------------------------------

/// What the auto-accept watcher does next.
#[derive(Debug, Clone, Copy, PartialEq, Eq)]
pub enum WatchStep {
    /// No selected game runs: look again after this many milliseconds.
    WaitForGame(u64),
    /// A game runs but shows no window, or a click was made a moment ago:
    /// look again after this many milliseconds.
    Wait(u64),
    /// Capture the screen, click the button in window `hwnd` if it shows,
    /// then look again after this many milliseconds.
    Scan(usize, u64),
}

/// How long after a click the watcher leaves the screen alone.
pub const CLICK_PAUSE_MS: u64 = 4000;

/// Whether enough time has passed since the last click (`None`: none yet),
/// on a clock of milliseconds that does not run backwards.
pub open spec fn pause_over(now_ms: u64, last_click_ms: Option<u64>) -> bool {
    match last_click_ms {
        None => true,
        Some(l) => now_ms >= l + CLICK_PAUSE_MS,
    }
}

pub open spec fn watch_step_spec(
    game_running: bool,
    window: Option<usize>,
    now_ms: u64,
    last_click_ms: Option<u64>,
) -> WatchStep {
    if !game_running {
        WatchStep::WaitForGame(1000)
    } else {
        match window {
            None => WatchStep::Wait(700),
            Some(w) => if pause_over(now_ms, last_click_ms) {
                WatchStep::Scan(w, 700)
            } else {
                WatchStep::Wait(700)
            },
        }
    }
}

/// One decision of the watcher at time `now_ms`, given the time of its last
/// click: idle while no selected game runs, never click without the game's
/// window, and at most one click every four seconds.
pub fn watch_step(game_running: bool, window: Option<usize>, now_ms: u64, last_click_ms: Option<u64>) -> (r:
    WatchStep)
    ensures
        r == watch_step_spec(game_running, window, now_ms, last_click_ms),
{
    if !game_running {
        return WatchStep::WaitForGame(1000);
    }
    match window {
        None => WatchStep::Wait(700),
        Some(w) => {
            let over = match last_click_ms {
                None => true,
                Some(l) => now_ms >= l && now_ms - l >= CLICK_PAUSE_MS,
            };
            if over {
                WatchStep::Scan(w, 700)
            } else {
                WatchStep::Wait(700)
            }
        },
    }
}

/// What the watcher sees at one of its steps: whether a selected game runs,
/// the game's window, the time, and whether the capture shows the button.
pub struct Sighting {
    pub game_running: bool,
    pub window: Option<usize>,
    pub now_ms: u64,
    pub button: bool,
}

/// Click `c` (time, window) was made at a sighting of a running game's
/// window that showed the button.
pub open spec fn seen_at(obs: Seq<Sighting>, c: (u64, usize)) -> bool {
    exists|j: int|
        0 <= j < obs.len() && (#[trigger] obs[j]).game_running && obs[j].window == Some(c.1)
            && obs[j].now_ms == c.0 && obs[j].button
}

/// The clicks the watcher sends over a run of sightings, starting from the
/// time of its last click: each is the time and the window clicked.
pub open spec fn watch_run(obs: Seq<Sighting>, last_click_ms: Option<u64>) -> Seq<(u64, usize)>
    decreases obs.len(),
{
    if obs.len() == 0 {
        seq![]
    } else {
        let o = obs[0];
        match watch_step_spec(o.game_running, o.window, o.now_ms, last_click_ms) {
            WatchStep::Scan(w, _) => if o.button {
                seq![(o.now_ms, w)] + watch_run(obs.drop_first(), Some(o.now_ms))
            } else {
                watch_run(obs.drop_first(), last_click_ms)
            },
            _ => watch_run(obs.drop_first(), last_click_ms),
        }
    }
}

proof fn lemma_watch_run(obs: Seq<Sighting>, last_click_ms: Option<u64>)
    ensures
        forall|k: int|
            0 <= k < watch_run(obs, last_click_ms).len() ==> pause_over(
                (#[trigger] watch_run(obs, last_click_ms)[k]).0,
                last_click_ms,
            ),
        forall|k: int|
            0 <= k < watch_run(obs, last_click_ms).len() - 1 ==> (#[trigger] watch_run(
                obs,
                last_click_ms,
            )[k + 1]).0 >= watch_run(obs, last_click_ms)[k].0 + CLICK_PAUSE_MS,
        forall|k: int|
            0 <= k < watch_run(obs, last_click_ms).len() ==> seen_at(
                obs,
                #[trigger] watch_run(obs, last_click_ms)[k],
            ),
    decreases obs.len(),
{
    if obs.len() > 0 {
        let o = obs[0];
        let rest = obs.drop_first();
        let run = watch_run(obs, last_click_ms);
        match watch_step_spec(o.game_running, o.window, o.now_ms, last_click_ms) {
            WatchStep::Scan(w, _) => {
                if o.button {
                    lemma_watch_run(rest, Some(o.now_ms));
                    let tail = watch_run(rest, Some(o.now_ms));
                    assert forall|k: int| 0 <= k < run.len() implies pause_over(#[trigger] run[k].0, last_click_ms) by {
                        if k > 0 {
                            assert(run[k] == tail[k - 1]);
                            assert(pause_over(tail[k - 1].0, Some(o.now_ms)));
                        }
                    }
                    assert forall|k: int| 0 <= k < run.len() - 1 implies (#[trigger] run[k + 1]).0 >= run[k].0
                        + CLICK_PAUSE_MS by {
                        assert(run[k + 1] == tail[k]);
                        if k > 0 {
                            assert(run[k] == tail[k - 1]);
                            assert(tail[(k - 1) + 1].0 >= tail[k - 1].0 + CLICK_PAUSE_MS);
                        } else {
                            assert(run[0] == (o.now_ms, w));
                            assert(pause_over(tail[0].0, Some(o.now_ms)));
                        }
                    }
                    assert forall|k: int| 0 <= k < run.len() implies seen_at(obs, #[trigger] run[k]) by {
                        if k == 0 {
                            assert(obs[0] == o);
                        } else {
                            assert(run[k] == tail[k - 1]);
                            assert(seen_at(rest, tail[k - 1]));
                            let j = choose|j: int|
                                0 <= j < rest.len() && (#[trigger] rest[j]).game_running && rest[j].window
                                    == Some(tail[k - 1].1) && rest[j].now_ms == tail[k - 1].0 && rest[j].button;
                            assert(obs[j + 1] == rest[j]);
                        }
                    }
                } else {
                    lemma_watch_run(rest, last_click_ms);
                    assert(run == watch_run(rest, last_click_ms));
                    assert forall|k: int| 0 <= k < run.len() implies seen_at(obs, #[trigger] run[k]) by {
                        assert(seen_at(rest, run[k]));
                            let j = choose|j: int|
                                0 <= j < rest.len() && (#[trigger] rest[j]).game_running && rest[j].window
                                    == Some(run[k].1) && rest[j].now_ms == run[k].0 && rest[j].button;
                        assert(obs[j + 1] == rest[j]);
                    }
                }
            },
            _ => {
                lemma_watch_run(rest, last_click_ms);
                assert(run == watch_run(rest, last_click_ms));
                assert forall|k: int| 0 <= k < run.len() implies seen_at(obs, #[trigger] run[k]) by {
                    assert(seen_at(rest, run[k]));
                    let j = choose|j: int|
                        0 <= j < rest.len() && (#[trigger] rest[j]).game_running && rest[j].window == Some(
                            run[k].1,
                        ) && rest[j].now_ms == run[k].0 && rest[j].button;
                    assert(obs[j + 1] == rest[j]);
                }
            },
        }
    }
}

/// Over any run of the watcher: it clicks only a window of a running
/// selected game, at a step where the capture showed the button, and any two
/// of its clicks are at least four seconds apart (also after the click made
/// before the run).
pub proof fn law_watch_clicks_spaced(obs: Seq<Sighting>, last_click_ms: Option<u64>)
    ensures
        ({
            let run = watch_run(obs, last_click_ms);
            &&& forall|k: int| 0 <= k < run.len() ==> pause_over(#[trigger] run[k].0, last_click_ms)
            &&& forall|k: int|
                0 <= k < run.len() - 1 ==> (#[trigger] run[k + 1]).0 >= run[k].0 + CLICK_PAUSE_MS
            &&& forall|k: int| 0 <= k < run.len() ==> seen_at(obs, #[trigger] run[k])
        }),
{
    lemma_watch_run(obs, last_click_ms);
}

} // verus!
