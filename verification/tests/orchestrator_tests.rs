use embed_anything::backend::{BertEmbed, EmbedImage, NoEncoder};
use embed_anything::config::TextEmbedConfig;
use embed_anything::error::EmbedError;
use embed_anything::metadata::Metadata;
use embed_anything::orchestrator::{
    bound_for, default_parallelism, Completion, ItemState, Orchestrator,
};
use embed_anything::pipeline::{embed_file, Embeder, FileContent};
use embed_anything::scheduler::EmbedData;
use std::cell::RefCell;

struct TextModel;

impl BertEmbed for TextModel {
    type Scalar = f32;

    fn forward(&self, texts: &[String]) -> Result<Vec<Vec<f32>>, EmbedError> {
        Ok(texts.iter().map(|t| vec![t.chars().count() as f32]).collect())
    }
}

struct NoImages;

impl EmbedImage for NoImages {
    type Scalar = f32;

    fn embed_image(&self, _path: &str) -> Result<Vec<f32>, EmbedError> {
        Err(EmbedError::InvalidModelSelection)
    }
}

type Sink = fn(Vec<EmbedData<f32>>);

fn files() -> Vec<(String, String)> {
    vec![
        ("a.txt".to_string(), "Alpha one. Alpha two. Alpha six.".to_string()),
        ("b.txt".to_string(), "Beta.".to_string()),
        ("c.txt".to_string(), "Gamma one. Gamma two.".to_string()),
    ]
}

fn embed_one(name: &str, text: &str) -> Vec<EmbedData<f32>> {
    let backend: Embeder<TextModel, NoImages> = Embeder::Bert(TextModel);
    let config = TextEmbedConfig::<NoEncoder>::new(Some(12), None, None, None, None, None, None, None)
        .ok()
        .unwrap();
    let mut meta = Metadata::new();
    meta.insert("file_name".to_string(), name.to_string());
    embed_file(
        name,
        FileContent::Text(text.to_string()),
        Some(meta),
        &backend,
        Some(&config),
        None::<Sink>,
    )
    .unwrap()
    .unwrap()
}

/// Runs all files with the given completion order among the items in flight:
/// of the items in flight the one chosen by `pick` completes next.
fn run(
    streaming: bool,
    limit: usize,
    pick: fn(&[usize]) -> usize,
    sink: &RefCell<Vec<Vec<EmbedData<f32>>>>,
) -> Option<Vec<EmbedData<f32>>> {
    let files = files();
    let mut o: Orchestrator<EmbedData<f32>> =
        Orchestrator::new(files.len(), limit, streaming).ok().unwrap();
    o.queue_all();
    let mut flying: Vec<usize> = Vec::new();
    while !o.is_finished() {
        while let Some(i) = o.start_next() {
            flying.push(i);
            assert!(o.in_flight() <= limit);
        }
        assert_eq!(o.in_flight(), flying.len());
        let at = pick(&flying);
        let item = flying.remove(at);
        let data = embed_one(&files[item].0, &files[item].1);
        match o.complete(item, data) {
            Completion::Deliver(batch) => {
                assert!(streaming);
                sink.borrow_mut().push(batch);
            }
            Completion::Buffered => assert!(!streaming),
            Completion::Rejected(_) => unreachable!(),
        }
    }
    o.finish().unwrap()
}

fn first(_flying: &[usize]) -> usize {
    0
}

fn last(flying: &[usize]) -> usize {
    flying.len() - 1
}

fn key(d: &EmbedData<f32>) -> (String, String) {
    (d.metadata.as_ref().unwrap().get("file_name").unwrap().clone(), d.text.clone().unwrap())
}

#[test]
fn collect_mode_returns_every_files_records() {
    let sink = RefCell::new(Vec::new());
    let all = run(false, 2, last, &sink).unwrap();
    assert!(sink.borrow().is_empty());
    let mut expected: Vec<(String, String)> = Vec::new();
    for (name, text) in files() {
        expected.extend(embed_one(&name, &text).iter().map(key));
    }
    assert_eq!(all.len(), expected.len());
    assert_eq!(all.len(), 3 + 1 + 2);
    let mut got: Vec<(String, String)> = all.iter().map(key).collect();
    got.sort();
    expected.sort();
    assert_eq!(got, expected);
}

#[test]
fn records_of_one_file_stay_together_and_in_chunk_order() {
    let sink = RefCell::new(Vec::new());
    let all = run(false, 3, last, &sink).unwrap();
    let names: Vec<String> = all.iter().map(|d| key(d).0).collect();
    assert_eq!(names, vec!["c.txt", "c.txt", "b.txt", "a.txt", "a.txt", "a.txt"]);
    for (name, text) in files() {
        let of_file: Vec<&EmbedData<f32>> = all.iter().filter(|d| key(d).0 == name).collect();
        let expected = embed_one(&name, &text);
        assert_eq!(of_file.len(), expected.len());
        for (got, want) in of_file.iter().zip(expected.iter()) {
            assert_eq!(*got, want);
        }
    }
}

#[test]
fn streaming_mode_hands_the_sink_what_collect_mode_returns() {
    let none = RefCell::new(Vec::new());
    let collected = run(false, 2, first, &none).unwrap();
    let sink = RefCell::new(Vec::new());
    let streamed = run(true, 2, last, &sink);
    assert_eq!(streamed, None);
    assert_eq!(sink.borrow().len(), 3);
    let mut got: Vec<(String, String)> = sink.borrow().iter().flatten().map(key).collect();
    let mut want: Vec<(String, String)> = collected.iter().map(key).collect();
    assert_eq!(got.len(), want.len());
    got.sort();
    want.sort();
    assert_eq!(got, want);
}

#[test]
fn no_more_items_are_in_flight_than_the_bound() {
    let mut o: Orchestrator<u8> = Orchestrator::new(5, 2, false).ok().unwrap();
    assert_eq!(o.len(), 5);
    assert_eq!(o.state(0), Some(ItemState::Discovered));
    assert_eq!(o.state(5), None);
    assert_eq!(o.start_next(), None);
    o.queue_all();
    assert_eq!(o.state(4), Some(ItemState::Queued));
    assert_eq!(o.start_next(), Some(0));
    assert_eq!(o.start_next(), Some(1));
    assert_eq!(o.start_next(), None);
    assert_eq!(o.in_flight(), 2);
    assert_eq!(o.state(1), Some(ItemState::InFlight));
    assert_eq!(o.complete(1, vec![10]), Completion::Buffered);
    assert_eq!(o.state(1), Some(ItemState::Completed));
    assert_eq!(o.in_flight(), 1);
    assert_eq!(o.start_next(), Some(2));
    assert_eq!(o.start_next(), None);
    assert!(!o.is_finished());
}

#[test]
fn reports_for_items_not_in_flight_change_nothing() {
    let mut o: Orchestrator<u8> = Orchestrator::new(2, 1, false).ok().unwrap();
    o.queue_all();
    assert_eq!(o.complete(0, vec![1]), Completion::Rejected(vec![1]));
    assert_eq!(o.complete(7, vec![2]), Completion::Rejected(vec![2]));
    assert!(!o.fail(1, EmbedError::BackendCallError));
    assert_eq!(o.start_next(), Some(0));
    assert_eq!(o.complete(0, vec![3]), Completion::Buffered);
    assert_eq!(o.complete(0, vec![4]), Completion::Rejected(vec![4]));
    assert_eq!(o.start_next(), Some(1));
    assert_eq!(o.complete(1, vec![5, 6]), Completion::Buffered);
    assert!(o.is_finished());
    assert_eq!(o.finish(), Ok(Some(vec![3, 5, 6])));
}

#[test]
fn a_failed_item_aborts_the_run_with_the_first_error() {
    let mut o: Orchestrator<u8> = Orchestrator::new(4, 2, false).ok().unwrap();
    o.queue_all();
    assert_eq!(o.start_next(), Some(0));
    assert_eq!(o.start_next(), Some(1));
    assert!(o.fail(0, EmbedError::FileNotFound("a".to_string())));
    assert_eq!(o.state(0), Some(ItemState::Failed));
    assert_eq!(o.start_next(), None);
    assert!(!o.is_finished());
    assert!(o.fail(1, EmbedError::BackendCallError));
    assert!(o.is_finished());
    assert_eq!(o.state(2), Some(ItemState::Queued));
    assert_eq!(o.finish(), Err(EmbedError::FileNotFound("a".to_string())));
}

#[test]
fn a_bound_of_zero_is_a_configuration_error() {
    assert!(matches!(
        Orchestrator::<u8>::new(3, 0, false),
        Err(EmbedError::ConfigurationError)
    ));
}

#[test]
fn a_run_without_items_is_finished_at_once() {
    let mut o: Orchestrator<u8> = Orchestrator::new(0, 1, false).ok().unwrap();
    o.queue_all();
    assert!(o.is_finished());
    assert_eq!(o.finish(), Ok(Some(vec![])));
    let s: Orchestrator<u8> = Orchestrator::new(0, 1, true).ok().unwrap();
    assert_eq!(s.finish(), Ok(None));
}

#[test]
fn default_bound_is_at_least_one() {
    assert!(default_parallelism() >= 1);
    let mut o: Orchestrator<u8> = Orchestrator::with_default_limit(1, true);
    o.queue_all();
    assert_eq!(o.start_next(), Some(0));
    assert_eq!(o.complete(0, vec![9]), Completion::Deliver(vec![9]));
    assert!(o.is_finished());
}

#[test]
fn flush_buffer_holds_records_back_until_there_are_enough() {
    let mut buffer: embed_anything::orchestrator::FlushBuffer<u8> =
        embed_anything::orchestrator::FlushBuffer::new(3);
    assert_eq!(buffer.push(vec![1]), None);
    assert_eq!(buffer.push(vec![]), None);
    assert_eq!(buffer.push(vec![2, 3, 4]), Some(vec![1, 2, 3, 4]));
    assert_eq!(buffer.push(vec![5, 6]), None);
    assert_eq!(buffer.push(vec![7]), Some(vec![5, 6, 7]));
    assert_eq!(buffer.push(vec![8]), None);
    assert_eq!(buffer.drain(), vec![8]);
}

#[test]
fn flush_buffer_with_threshold_zero_or_one_passes_batches_through() {
    let mut zero: embed_anything::orchestrator::FlushBuffer<u8> =
        embed_anything::orchestrator::FlushBuffer::new(0);
    assert_eq!(zero.push(vec![]), None);
    assert_eq!(zero.push(vec![1]), Some(vec![1]));
    assert_eq!(zero.drain(), Vec::<u8>::new());
    let mut one: embed_anything::orchestrator::FlushBuffer<u8> =
        embed_anything::orchestrator::FlushBuffer::new(1);
    assert_eq!(one.push(vec![1, 2]), Some(vec![1, 2]));
    assert_eq!(one.push(vec![usize::MAX as u8]), Some(vec![255]));
}

#[test]
fn a_machine_that_reports_no_thread_still_gets_a_bound_of_one() {
    assert_eq!(bound_for(0), 1);
    assert_eq!(bound_for(1), 1);
    assert_eq!(bound_for(8), 8);
    assert_eq!(bound_for(usize::MAX), usize::MAX);
}
