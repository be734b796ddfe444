use plate_prep::args::{Args, Command, Inference, Prepare, Train};

fn prepare() -> Command {
    Command::Prepare(Prepare { norm: String::from("norm.json"), label_map: String::from("labels.json") })
}

#[test]
fn data_directory_defaults_to_data() {
    assert_eq!(Args::default_data(), "data");
}

#[test]
fn artifacts_lie_in_the_data_directory() {
    let args = Args { data: String::from("data"), command: prepare() };
    let layout = args.layout();
    assert_eq!(layout.images, "data/plates");
    assert_eq!(layout.manifest, "data/plates/plates.csv");
    assert_eq!(layout.train_images, "data/train.array");
    assert_eq!(layout.train_labels, "data/train.label.array");
    assert_eq!(layout.test_images, "data/test.array");
    assert_eq!(layout.test_labels, "data/test.label.array");
    assert_eq!(layout.valid_images, "data/valid.array");
    assert_eq!(layout.valid_labels, "data/valid.label.array");
}

#[test]
fn trailing_separator_is_not_doubled() {
    let args = Args { data: String::from("/srv/set/"), command: Command::Train(Train { model: String::from("m.ot") }) };
    assert_eq!(args.layout().manifest, "/srv/set/plates/plates.csv");
    assert_eq!(args.layout().valid_labels, "/srv/set/valid.label.array");
}

#[test]
fn commands_carry_their_options() {
    let inference = Inference {
        model: String::from("m.ot"),
        normalization: String::from("norm.json"),
        label_map: String::from("labels.json"),
        image: vec![String::from("a.png"), String::from("b.png")],
    };
    let args = Args { data: Args::default_data(), command: Command::Inference(inference) };
    match args.command {
        Command::Inference(options) => {
            assert_eq!(options.image.len(), 2);
            assert_eq!(options.model, "m.ot");
        }
        other => panic!("unexpected command: {:?}", other),
    }
}
