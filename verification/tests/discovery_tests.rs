use embed_anything::backend::{BertEmbed, EmbedImage, NoEncoder};
use embed_anything::config::TextEmbedConfig;
use embed_anything::discovery::{
    file_extension, is_image, is_wanted, select_files, select_images,
};
use embed_anything::error::EmbedError;
use embed_anything::metadata::Metadata;
use embed_anything::pipeline::{emb_audio, emb_image_directory, AudioSegment, Embeder};
use embed_anything::scheduler::EmbedData;
use std::cell::RefCell;

fn strings(items: &[&str]) -> Vec<String> {
    items.iter().map(|s| s.to_string()).collect()
}

#[test]
fn extension_is_what_stands_behind_the_last_dot_of_the_file() {
    assert_eq!(file_extension("a.txt"), Some("txt".to_string()));
    assert_eq!(file_extension("dir/a.tar.gz"), Some("gz".to_string()));
    assert_eq!(file_extension("dir.d/a"), None);
    assert_eq!(file_extension("dir.d/a.PDF"), Some("PDF".to_string()));
    assert_eq!(file_extension("a."), Some(String::new()));
    assert_eq!(file_extension("a"), None);
    assert_eq!(file_extension(""), None);
    assert_eq!(file_extension(".bashrc"), None);
    assert_eq!(file_extension("x/.bashrc"), None);
    assert_eq!(file_extension(".a.b"), Some("b".to_string()));
    assert_eq!(file_extension("dir/"), None);
    assert_eq!(file_extension("übung.tëxt"), Some("tëxt".to_string()));
}

#[test]
fn extension_agrees_with_the_standard_library_on_plain_names() {
    for path in ["a.txt", "b/c.d.e", "noext", ".hidden", "x/.hidden.y", "trailing.", "a/b.c/d"] {
        let std_ext =
            std::path::Path::new(path).extension().map(|e| e.to_str().unwrap().to_string());
        assert_eq!(file_extension(path), std_ext);
    }
}

#[test]
fn without_extensions_every_file_takes_part() {
    let paths = strings(&["a.txt", "b.pdf", "c", ".d"]);
    assert_eq!(select_files(paths.clone(), &None), paths);
    assert!(is_wanted("anything", &None));
}

#[test]
fn with_extensions_only_matching_files_take_part_in_their_order() {
    let paths =
        strings(&["z.txt", "b.pdf", "a.txt", "c", "d.TXT", "e.txt.bak", "f.md", "dir.txt/g"]);
    let wanted = Some(strings(&["txt", "md"]));
    assert_eq!(select_files(paths, &wanted), strings(&["z.txt", "a.txt", "f.md"]));
    assert!(!is_wanted("c", &wanted));
    assert!(is_wanted("x/y.md", &wanted));
    assert!(select_files(strings(&["a.txt"]), &Some(vec![])).is_empty());
    assert!(select_files(vec![], &wanted).is_empty());
}

#[test]
fn a_directory_with_three_text_files_selects_three() {
    let listing = strings(&["dir/one.txt", "dir/notes.md", "dir/two.txt", "dir/three.txt"]);
    let selected = select_files(listing, &Some(strings(&["txt"])));
    assert_eq!(selected, strings(&["dir/one.txt", "dir/two.txt", "dir/three.txt"]));
}

struct Images {
    seen: RefCell<Vec<String>>,
}

impl EmbedImage for Images {
    type Scalar = f32;

    fn embed_image(&self, path: &str) -> Result<Vec<f32>, EmbedError> {
        self.seen.borrow_mut().push(path.to_string());
        if path.contains("broken") {
            Err(EmbedError::UnsupportedFileType(path.to_string()))
        } else {
            Ok(vec![path.len() as f32])
        }
    }
}

fn file_name(path: &str) -> Option<Metadata> {
    let mut m = Metadata::new();
    m.insert("file_name".to_string(), path.to_string());
    Some(m)
}

#[test]
fn image_directory_gives_one_record_per_image() {
    let model = Images { seen: RefCell::new(Vec::new()) };
    let records = emb_image_directory(&strings(&["a.png", "bb.png"]), &model).unwrap();
    assert_eq!(
        records,
        vec![
            EmbedData::new(vec![5.0], None, file_name("a.png")),
            EmbedData::new(vec![6.0], None, file_name("bb.png"))
        ]
    );
    assert_eq!(emb_image_directory(&[], &model), Ok(vec![]));
}

#[test]
fn image_directory_fails_with_the_first_failing_image() {
    let model = Images { seen: RefCell::new(Vec::new()) };
    let r = emb_image_directory(&strings(&["a.png", "broken1.png", "broken2.png"]), &model);
    assert_eq!(r, Err(EmbedError::UnsupportedFileType("broken1.png".to_string())));
    assert_eq!(*model.seen.borrow(), strings(&["a.png", "broken1.png"]));
}

struct Lengths {
    batches: RefCell<Vec<usize>>,
}

impl BertEmbed for Lengths {
    type Scalar = f32;

    fn forward(&self, texts: &[String]) -> Result<Vec<Vec<f32>>, EmbedError> {
        self.batches.borrow_mut().push(texts.len());
        Ok(texts.iter().map(|t| vec![t.chars().count() as f32]).collect())
    }
}

fn segment(start: &str, end: &str, text: &str) -> AudioSegment {
    AudioSegment { start: start.to_string(), end: end.to_string(), text: text.to_string() }
}

fn segment_metadata(start: &str, end: &str, file: &str) -> Option<Metadata> {
    let mut m = Metadata::new();
    m.insert("start".to_string(), start.to_string());
    m.insert("end".to_string(), end.to_string());
    m.insert("file_name".to_string(), file.to_string());
    Some(m)
}

#[test]
fn audio_segments_are_embedded_with_their_time_range() {
    let backend: Embeder<Lengths, Images> =
        Embeder::Bert(Lengths { batches: RefCell::new(Vec::new()) });
    let config =
        TextEmbedConfig::<NoEncoder>::new(None, Some(2), None, None, None, None, None, None)
            .ok()
            .unwrap();
    let segments = vec![
        segment("0", "2.5", "hello"),
        segment("2.5", "4", "to the"),
        segment("4", "9.25", "world"),
    ];
    let records = emb_audio("track.wav", segments, &backend, Some(&config)).unwrap().unwrap();
    assert_eq!(
        records,
        vec![
            EmbedData::new(
                vec![5.0],
                Some("hello".to_string()),
                segment_metadata("0", "2.5", "track.wav")
            ),
            EmbedData::new(
                vec![6.0],
                Some("to the".to_string()),
                segment_metadata("2.5", "4", "track.wav")
            ),
            EmbedData::new(
                vec![5.0],
                Some("world".to_string()),
                segment_metadata("4", "9.25", "track.wav")
            )
        ]
    );
    match &backend {
        Embeder::Bert(model) => assert_eq!(*model.batches.borrow(), vec![2, 1]),
        _ => unreachable!(),
    }
}

#[test]
fn audio_without_segments_gives_no_record() {
    let backend: Embeder<Lengths, Images> =
        Embeder::Jina(Lengths { batches: RefCell::new(Vec::new()) });
    let r = emb_audio("t.wav", vec![], &backend, None::<&TextEmbedConfig<NoEncoder>>);
    assert_eq!(r, Ok(Some(vec![])));
}

#[test]
fn audio_with_an_image_model_is_an_invalid_model_selection() {
    let backend: Embeder<Lengths, Images> = Embeder::Clip(Images { seen: RefCell::new(Vec::new()) });
    let r = emb_audio(
        "t.wav",
        vec![segment("0", "1", "hi")],
        &backend,
        None::<&TextEmbedConfig<NoEncoder>>,
    );
    assert_eq!(r, Err(EmbedError::InvalidModelSelection));
}

#[test]
fn images_are_known_by_their_extension() {
    for path in ["a.png", "b/c.jpg", "d.jpeg", "e.gif", "f.bmp", "g.tiff", "h.webp"] {
        assert!(is_image(path));
    }
    for path in ["a.txt", "png", ".png", "a.PNG", "a.png.bak", "dir.png/a", "a.", ""] {
        assert!(!is_image(path));
    }
    assert_eq!(
        select_images(strings(&["z.png", "a.txt", "b.jpg", "c"])),
        strings(&["z.png", "b.jpg"])
    );
}
