use freenet_lib::autoaccept::{
    auto_accept_games, find_accept_button, selected_auto_accept_processes, watch_step, WatchStep,
    CLICK_PAUSE_MS,
};

fn list(a: &[&str]) -> Vec<String> {
    a.iter().map(|s| s.to_string()).collect()
}

#[test]
fn games_table() {
    let g = auto_accept_games();
    assert_eq!(g.len(), 5);
    assert_eq!(g[0].key, "dota2");
    assert_eq!(g[1].name, "CS2 / CS:GO");
    assert_eq!(g[1].processes, list(&["cs2", "csgo"]));
    assert_eq!(g[3].processes, list(&["league of legends"]));
    assert_eq!(g[4].processes, list(&["r5apex"]));
}

#[test]
fn processes_of_selected_games() {
    assert_eq!(selected_auto_accept_processes(&list(&["apex", "cs2"])), list(&["cs2", "csgo", "r5apex"]));
    assert_eq!(selected_auto_accept_processes(&list(&["apex", "dota2"])), list(&["dota2", "r5apex"]));
    assert_eq!(selected_auto_accept_processes(&list(&["unknown"])), Vec::<String>::new());
    assert_eq!(selected_auto_accept_processes(&vec![]), Vec::<String>::new());
}

fn capture(w: usize, h: usize, green: impl Fn(usize, usize) -> bool) -> Vec<u8> {
    let mut p = vec![0u8; w * h * 4];
    for y in 0..h {
        for x in 0..w {
            let i = (y * w + x) * 4;
            if green(x, y) {
                p[i] = 30;
                p[i + 1] = 200;
                p[i + 2] = 40;
            } else {
                p[i] = 90;
                p[i + 1] = 100;
                p[i + 2] = 90;
            }
        }
    }
    p
}

#[test]
fn button_centre_in_screen_coordinates() {
    let p = capture(100, 100, |x, y| (20..60).contains(&x) && (40..50).contains(&y));
    assert_eq!(find_accept_button(1000, 500, 100, 100, &p), Some((1039, 544)));
}

#[test]
fn too_few_or_badly_shaped_greens() {
    let few = capture(100, 100, |x, y| (20..39).contains(&x) && (40..50).contains(&y));
    assert_eq!(find_accept_button(0, 0, 100, 100, &few), None);
    let column = capture(100, 100, |x, _y| x == 10 || x == 11);
    assert_eq!(find_accept_button(0, 0, 100, 100, &column), None);
    let tall = capture(100, 100, |x, y| (0..10).contains(&x) && (0..40).contains(&y));
    assert_eq!(find_accept_button(0, 0, 100, 100, &tall), None);
    assert_eq!(find_accept_button(0, 0, 0, 0, &[]), None);
}

#[test]
fn dim_green_is_not_a_button() {
    let mut p = capture(50, 50, |_, _| true);
    for i in 0..50 * 50 {
        p[i * 4 + 1] = 120;
    }
    assert_eq!(find_accept_button(0, 0, 50, 50, &p), None);
}

#[test]
fn watcher_steps() {
    assert_eq!(watch_step(false, Some(5), 99999, None), WatchStep::WaitForGame(1000));
    assert_eq!(watch_step(true, None, 99999, None), WatchStep::Wait(700));
    assert_eq!(watch_step(true, Some(5), 10_000, Some(6_001)), WatchStep::Wait(700));
    assert_eq!(watch_step(true, Some(5), 10_000, Some(10_000 - CLICK_PAUSE_MS)), WatchStep::Scan(5, 700));
    assert_eq!(watch_step(true, Some(5), 0, None), WatchStep::Scan(5, 700));
    assert_eq!(watch_step(true, Some(5), 100, Some(200)), WatchStep::Wait(700));
}

#[test]
fn negative_or_empty_capture_has_no_button() {
    assert_eq!(find_accept_button(0, 0, -3, 5, &[]), None);
    assert_eq!(find_accept_button(0, 0, 5, -2, &[]), None);
    assert_eq!(find_accept_button(0, 0, 2_000_000_000, 0, &[]), None);
}

#[test]
fn capture_at_the_edge_of_the_coordinate_range() {
    let plain = capture(100, 50, |_, _| false);
    assert_eq!(find_accept_button(i32::MAX, i32::MAX, 100, 50, &plain), None);
    let px = capture(100, 50, |x, y| (20..40).contains(&x) && (10..20).contains(&y));
    assert_eq!(find_accept_button(i32::MAX - 100, 7, 100, 50, &px), Some((i32::MAX - 100 + 29, 7 + 14)));
}
