use stagehand::controller::{generate_levels, set_address};
use stagehand::data_structures::index::Index;
use stagehand::data_structures::level::Level;
use stagehand::data_structures::show::Show;
use stagehand::data_structures::universe::Universe;
use stagehand::dmx_output::{output_frames, plan_send};

fn frame(u: u16, first: u8) -> (u16, [u8; 512]) {
    let mut levels = [0u8; 512];
    levels[0] = first;
    (u, levels)
}

#[test]
fn frames_carry_levels() {
    let mut show = Show::default();
    set_address(
        &mut show,
        Universe::new(2).unwrap(),
        vec![(Index::new(3).unwrap(), Level::new(77))],
    )
    .unwrap();
    let frames = output_frames(&generate_levels(&show));
    assert_eq!(frames.len(), 3);
    assert_eq!(frames[1].0, 2);
    assert_eq!(frames[1].1[2], 77);
    assert_eq!(frames[0].1, [0u8; 512]);
}

#[test]
fn plan_without_frames_does_nothing() {
    assert!(plan_send(&vec![], &vec![1, 2]).is_none());
}

#[test]
fn plan_terminates_and_registers_differences() {
    let frames = vec![frame(3, 9), frame(1, 8)];
    let plan = plan_send(&frames, &vec![5, 3, 7]).unwrap();
    assert_eq!(plan.universes, vec![1, 3]);
    assert_eq!(plan.terminate, vec![5, 7]);
    assert_eq!(plan.register, vec![1]);
    assert_eq!(plan.data.len(), 2 * 513);
    assert_eq!(plan.data[0], 0);
    assert_eq!(plan.data[1], 9);
    assert_eq!(plan.data[513], 0);
    assert_eq!(plan.data[514], 8);
}

#[test]
fn plan_when_already_registered() {
    let frames = vec![frame(1, 0), frame(2, 0)];
    let plan = plan_send(&frames, &vec![2, 1]).unwrap();
    assert!(plan.terminate.is_empty());
    assert!(plan.register.is_empty());
    assert_eq!(plan.universes, vec![1, 2]);
}
