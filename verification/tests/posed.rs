use voxel_lab::kit::{
    CoordinateConvention, IdentityInvariants, KitCell, KitPart, PaletteGroup, PaletteSlot, VoxelKit, KIT_SCHEMA_VERSION,
};
use voxel_lab::posed::{PartChain, PartDelta, PoseSpecDocument, PoseSpecFrame};

fn posing_kit() -> VoxelKit {
    let part = |id: &str| KitPart {
        id: id.to_owned(),
        version: 1,
        pivot: [0, 0, 0],
        cells: vec![KitCell { coordinate: [0, 0, 0], material_slot: 1 }],
        sockets: vec![],
        palette_groups: vec![],
        symmetry_partner: None,
    };
    VoxelKit {
        schema_version: KIT_SCHEMA_VERSION,
        id: "hero".to_owned(),
        version: 1,
        convention: CoordinateConvention {
            coordinate_system: "right_handed_y_up".to_owned(),
            forward_axis: "-Z".to_owned(),
            voxel_size_positive: true,
            ground_y: 0,
            neutral_facing: [0, 0, -1],
        },
        palette: vec![PaletteGroup {
            name: "body".to_owned(),
            slots: vec![PaletteSlot { slot: 1, display_name: "skin".to_owned(), color_in_range: true }],
        }],
        parts: vec![part("torso"), part("upper_arm"), part("lower_arm")],
        invariants: IdentityInvariants {
            min_limb_thickness: 1,
            protected_parts: vec![],
            volume_range: None,
            required_sockets: vec![],
        },
    }
}

fn delta(part: &str) -> PartDelta {
    PartDelta { part: part.to_owned(), angles_finite: true }
}

fn chain(child: &str, parent: &str) -> PartChain {
    PartChain { child: child.to_owned(), parent: parent.to_owned() }
}

fn frame(name: &str) -> PoseSpecFrame {
    PoseSpecFrame {
        name: name.to_owned(),
        duration_microseconds: 100_000,
        deltas: vec![delta("upper_arm"), delta("lower_arm")],
        chains: vec![chain("lower_arm", "upper_arm")],
    }
}

fn document() -> PoseSpecDocument {
    PoseSpecDocument {
        schema_version: 1,
        id: "wave".to_owned(),
        kit: "kits/hero.json".to_owned(),
        cell_downsample: 2,
        clip_id: "clip/wave".to_owned(),
        clip_name: "Wave".to_owned(),
        frames: vec![frame("up"), frame("down")],
    }
}

fn message(doc: &PoseSpecDocument) -> String {
    doc.validate(&posing_kit()).expect_err("expected a refusal")
}

#[test]
fn pose_spec_accepts_a_well_formed_document() {
    assert_eq!(document().validate(&posing_kit()), Ok(()));
}

#[test]
fn pose_spec_refuses_header_faults_in_order() {
    let mut doc = document();
    doc.schema_version = 3;
    doc.cell_downsample = 3;
    assert_eq!(message(&doc), "pose spec schema 3 is unsupported; expected 1");
    let mut doc = document();
    doc.cell_downsample = 3;
    assert_eq!(message(&doc), "cellDownsample must be one of 1, 2, 4, 8, got 3");
    let mut doc = document();
    doc.clip_id = "wave".to_owned();
    assert_eq!(message(&doc), "clip id wave must be a clip/... identity");
    let mut doc = document();
    doc.clip_name = " Wave".to_owned();
    assert_eq!(message(&doc), "clipName must be non-empty canonical text");
    let mut doc = document();
    doc.frames.clear();
    assert_eq!(message(&doc), "pose spec must contain 1..=4096 frames");
}

#[test]
fn pose_spec_refuses_frame_faults() {
    let mut doc = document();
    doc.frames[1].name = "up".to_owned();
    assert_eq!(message(&doc), "frame up is named more than once");
    let mut doc = document();
    doc.frames[0].duration_microseconds = 0;
    assert_eq!(message(&doc), "frame up duration must be within 1..=60000000 microseconds");
    let mut doc = document();
    doc.frames[0].deltas.push(delta("tail"));
    assert_eq!(message(&doc), "frame up delta names unknown part tail");
    let mut doc = document();
    doc.frames[0].deltas.push(delta("upper_arm"));
    assert_eq!(message(&doc), "frame up deltas part upper_arm more than once");
    let mut doc = document();
    doc.frames[1].deltas[0].angles_finite = false;
    assert_eq!(message(&doc), "frame down delta for part upper_arm must be finite degrees");
}

#[test]
fn pose_spec_refuses_chain_faults() {
    let mut doc = document();
    doc.frames[0].chains.push(chain("torso", "torso"));
    assert_eq!(message(&doc), "frame up chains part torso to itself");
    let mut doc = document();
    doc.frames[0].chains.push(chain("lower_arm", "torso"));
    assert_eq!(message(&doc), "frame up chains part lower_arm more than once");
    let mut doc = document();
    doc.frames[0].chains.push(chain("upper_arm", "torso"));
    assert_eq!(message(&doc), "frame up chain parent upper_arm is itself chained; chains are single-level");
    let mut doc = document();
    doc.frames[0].chains.push(chain("hand", "torso"));
    assert_eq!(message(&doc), "frame up chain names unknown child part hand");
}
