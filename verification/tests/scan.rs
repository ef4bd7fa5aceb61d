use pin_mux::driver::{DigitalOutput, VirtualPinOutput};
use pin_mux::mux::Multiplexer;

#[test]
fn test_2_by_2() {
    let rows = vec![VirtualPinOutput::new(), VirtualPinOutput::new()];
    let cols = vec![VirtualPinOutput::new(), VirtualPinOutput::new()];
    let mut multiplexed = Multiplexer::new(2, 2, rows, cols).unwrap();

    let pins = multiplexed.virtual_outputs();
    assert_eq!(pins.len(), 4);
    pins[0].set_high().unwrap();

    assert_eq!(multiplexed.row_driver(0).is_asserted(), false);
    assert_eq!(multiplexed.row_driver(1).is_asserted(), false);
    assert_eq!(multiplexed.col_driver(0).is_asserted(), false);
    assert_eq!(multiplexed.col_driver(1).is_asserted(), false);

    multiplexed.advance_scan().unwrap();

    assert_eq!(multiplexed.row_driver(0).is_asserted(), true);
    assert_eq!(multiplexed.row_driver(1).is_asserted(), false);
    assert_eq!(multiplexed.col_driver(0).is_asserted(), true);
    assert_eq!(multiplexed.col_driver(1).is_asserted(), false);

    multiplexed.advance_scan().unwrap();

    assert_eq!(multiplexed.row_driver(0).is_asserted(), false);
    assert_eq!(multiplexed.row_driver(1).is_asserted(), true);
    assert_eq!(multiplexed.col_driver(0).is_asserted(), false);
    assert_eq!(multiplexed.col_driver(1).is_asserted(), false);
}

#[test]
fn test_4_by_4() {
    let rows = vec![
        VirtualPinOutput::new(),
        VirtualPinOutput::new(),
        VirtualPinOutput::new(),
        VirtualPinOutput::new(),
    ];
    let cols = vec![
        VirtualPinOutput::new(),
        VirtualPinOutput::new(),
        VirtualPinOutput::new(),
        VirtualPinOutput::new(),
    ];
    let mut multiplexed = Multiplexer::new(4, 4, rows, cols).unwrap();

    let pins = multiplexed.virtual_outputs();
    assert_eq!(pins.len(), 16);

    pins[0].set_high().unwrap();
    pins[1].set_high().unwrap();

    assert_eq!(multiplexed.row_driver(0).is_asserted(), false);
    assert_eq!(multiplexed.row_driver(1).is_asserted(), false);
    assert_eq!(multiplexed.row_driver(2).is_asserted(), false);
    assert_eq!(multiplexed.row_driver(3).is_asserted(), false);
    assert_eq!(multiplexed.col_driver(0).is_asserted(), false);
    assert_eq!(multiplexed.col_driver(1).is_asserted(), false);
    assert_eq!(multiplexed.col_driver(2).is_asserted(), false);
    assert_eq!(multiplexed.col_driver(3).is_asserted(), false);

    multiplexed.advance_scan().unwrap();

    assert_eq!(multiplexed.row_driver(0).is_asserted(), true);
    assert_eq!(multiplexed.row_driver(1).is_asserted(), false);
    assert_eq!(multiplexed.row_driver(2).is_asserted(), false);
    assert_eq!(multiplexed.row_driver(3).is_asserted(), false);
    assert_eq!(multiplexed.col_driver(0).is_asserted(), true);
    assert_eq!(multiplexed.col_driver(1).is_asserted(), true);
    assert_eq!(multiplexed.col_driver(2).is_asserted(), false);
    assert_eq!(multiplexed.col_driver(3).is_asserted(), false);

    multiplexed.advance_scan().unwrap();

    assert_eq!(multiplexed.row_driver(0).is_asserted(), false);
    assert_eq!(multiplexed.row_driver(1).is_asserted(), true);
    assert_eq!(multiplexed.row_driver(2).is_asserted(), false);
    assert_eq!(multiplexed.row_driver(3).is_asserted(), false);
    assert_eq!(multiplexed.col_driver(0).is_asserted(), false);
    assert_eq!(multiplexed.col_driver(1).is_asserted(), false);
    assert_eq!(multiplexed.col_driver(2).is_asserted(), false);
    assert_eq!(multiplexed.col_driver(3).is_asserted(), false);
}

#[test]
fn single_row_grid_scans_in_place() {
    let rows = vec![VirtualPinOutput::new()];
    let cols = vec![
        VirtualPinOutput::new(),
        VirtualPinOutput::new(),
        VirtualPinOutput::new(),
    ];
    let mut mux = Multiplexer::new(1, 3, rows, cols).unwrap();

    let pins = mux.virtual_outputs();
    pins[0].set_high().unwrap();
    pins[2].set_high().unwrap();

    mux.advance_scan().unwrap();
    assert_eq!(mux.row_driver(0).is_asserted(), true);
    assert_eq!(mux.col_driver(0).is_asserted(), true);
    assert_eq!(mux.col_driver(1).is_asserted(), false);
    assert_eq!(mux.col_driver(2).is_asserted(), true);
    assert_eq!(mux.cursor(), 0);

    mux.advance_scan().unwrap();
    assert_eq!(mux.row_driver(0).is_asserted(), true);
    assert_eq!(mux.col_driver(0).is_asserted(), true);
    assert_eq!(mux.col_driver(1).is_asserted(), false);
    assert_eq!(mux.col_driver(2).is_asserted(), true);
    assert_eq!(mux.cursor(), 0);
}

#[test]
fn single_column_grid_scans_each_row() {
    let rows = vec![
        VirtualPinOutput::new(),
        VirtualPinOutput::new(),
        VirtualPinOutput::new(),
    ];
    let cols = vec![VirtualPinOutput::new()];
    let mut mux = Multiplexer::new(3, 1, rows, cols).unwrap();

    let pins = mux.virtual_outputs();
    pins[1].set_high().unwrap();

    mux.advance_scan().unwrap();
    assert_eq!(mux.row_driver(0).is_asserted(), true);
    assert_eq!(mux.col_driver(0).is_asserted(), false);

    mux.advance_scan().unwrap();
    assert_eq!(mux.row_driver(0).is_asserted(), false);
    assert_eq!(mux.row_driver(1).is_asserted(), true);
    assert_eq!(mux.col_driver(0).is_asserted(), true);

    mux.advance_scan().unwrap();
    assert_eq!(mux.row_driver(2).is_asserted(), true);
    assert_eq!(mux.col_driver(0).is_asserted(), false);
    assert_eq!(mux.cursor(), 0);
}

#[test]
fn cursor_follows_call_count_modulo_rows() {
    let rows = vec![
        VirtualPinOutput::new(),
        VirtualPinOutput::new(),
        VirtualPinOutput::new(),
    ];
    let cols = vec![VirtualPinOutput::new(), VirtualPinOutput::new()];
    let mut mux = Multiplexer::new(3, 2, rows, cols).unwrap();

    assert_eq!(mux.cursor(), 0);
    for n in 1..=7usize {
        mux.advance_scan().unwrap();
        assert_eq!(mux.cursor(), n % 3);
    }
}

#[test]
fn writes_between_scans_are_picked_up() {
    let rows = vec![VirtualPinOutput::new(), VirtualPinOutput::new()];
    let cols = vec![VirtualPinOutput::new(), VirtualPinOutput::new()];
    let mut mux = Multiplexer::new(2, 2, rows, cols).unwrap();

    mux.advance_scan().unwrap();
    assert_eq!(mux.col_driver(1).is_asserted(), false);

    // Row 1 is next; asserting its cell now is visible to the next call.
    let pins = mux.virtual_outputs();
    pins[3].set_high().unwrap();

    mux.advance_scan().unwrap();
    assert_eq!(mux.row_driver(1).is_asserted(), true);
    assert_eq!(mux.col_driver(1).is_asserted(), true);
    assert_eq!(mux.col_driver(0).is_asserted(), false);
}

#[test]
fn blanking_clears_and_repeats_without_effect() {
    let rows = vec![VirtualPinOutput::new(), VirtualPinOutput::new()];
    let cols = vec![VirtualPinOutput::new(), VirtualPinOutput::new()];
    let mut mux = Multiplexer::new(2, 2, rows, cols).unwrap();

    let pins = mux.virtual_outputs();
    pins[0].set_high().unwrap();
    pins[1].set_high().unwrap();

    mux.advance_scan().unwrap();
    assert_eq!(mux.row_driver(0).is_asserted(), true);
    assert_eq!(mux.col_driver(0).is_asserted(), true);

    mux.set_all_low().unwrap();
    assert_eq!(mux.row_driver(0).is_asserted(), false);
    assert_eq!(mux.row_driver(1).is_asserted(), false);
    assert_eq!(mux.col_driver(0).is_asserted(), false);
    assert_eq!(mux.col_driver(1).is_asserted(), false);
    assert_eq!(mux.cursor(), 1);

    mux.set_all_low().unwrap();
    assert_eq!(mux.row_driver(0).is_asserted(), false);
    assert_eq!(mux.row_driver(1).is_asserted(), false);
    assert_eq!(mux.col_driver(0).is_asserted(), false);
    assert_eq!(mux.col_driver(1).is_asserted(), false);
    assert_eq!(mux.cursor(), 1);

    // Blanking does not touch the grid: the next scan redraws row 0.
    mux.advance_scan().unwrap();
    mux.advance_scan().unwrap();
    assert_eq!(mux.row_driver(0).is_asserted(), true);
    assert_eq!(mux.col_driver(0).is_asserted(), true);
    assert_eq!(mux.col_driver(1).is_asserted(), true);
}
