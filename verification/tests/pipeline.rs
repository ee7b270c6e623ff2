use house_prices::data::{FileOutcome, IngestError, RowOutcome};
use house_prices::evaluation::{confusion_matrix, Accuracy};
use house_prices::features::{FeatureMatrix, FeatureValue, DEFAULT_PRICE_THRESHOLD};
use house_prices::model::{DirtyHouseRecord, Real};
use house_prices::pipeline::prepare;
use linfa::prelude::ToConfusionMatrix;
use linfa::traits::{Fit, Predict};
use linfa::Dataset;
use linfa_trees::DecisionTree;
use ndarray::{Array1, Array2};

type Row = (f64, u64, f64, f64, f64, u64);

fn parse(text: &str) -> Vec<RowOutcome> {
    let mut reader = csv::Reader::from_reader(text.as_bytes());
    let mut rows = Vec::new();
    for result in reader.deserialize::<Row>() {
        rows.push(match result {
            Ok((area, bedrooms, bathrooms, floors, year_built, price)) => {
                RowOutcome::Parsed(DirtyHouseRecord {
                    area: Real::from_bits(area.to_bits()),
                    bedrooms,
                    bathrooms: Real::from_bits(bathrooms.to_bits()),
                    floors: Real::from_bits(floors.to_bits()),
                    year_built: Real::from_bits(year_built.to_bits()),
                    price,
                })
            }
            Err(_) => RowOutcome::Malformed,
        });
    }
    rows
}

fn to_array(m: &FeatureMatrix) -> Array2<f64> {
    let mut flat = Vec::new();
    for i in 0..m.nrows() {
        for j in 0..m.ncols() {
            flat.push(match m.get(i, j).unwrap() {
                FeatureValue::Real(r) => f64::from_bits(r.to_bits()),
                FeatureValue::Count(n) => n as f64,
            });
        }
    }
    Array2::from_shape_vec((m.nrows(), m.ncols()), flat).unwrap()
}

fn fit_and_predict(features: &FeatureMatrix, labels: &[usize], max_depth: usize) -> Vec<usize> {
    let dataset = Dataset::new(to_array(features), Array1::from(labels.to_vec()));
    let tree = DecisionTree::params().max_depth(Some(max_depth)).fit(&dataset).unwrap();
    tree.predict(&dataset).to_vec()
}

const TWO_HOUSES: &str = "area,bedrooms,bathrooms,floors,year_built,price\n\
1000,2,1.0,1.0,1990,300000\n\
2000,4,3.0,2.0,2015,600000\n";

const MIXED: &str = "area,bedrooms,bathrooms,floors,year_built,price\n\
1000,2,1.0,1.0,1990,300000\n\
big,2,1.0,1.0,1990,300000\n\
1500,3,2.0,1.0,2001,500000\n\
1600,three,2.0,1.0,2001,510000\n\
1700,3,2.0\n\
2000,4,3.0,2.0,2015,600000\n\
2100,4,3.0,2.0,2016,-5\n\
2500,5,3.5,2.0,2020,500001\n";

#[test]
fn two_houses_from_text_to_training_set() {
    let p = prepare(FileOutcome::Rows(parse(TWO_HOUSES)), DEFAULT_PRICE_THRESHOLD).unwrap();
    assert_eq!(p.records.len(), 2);
    assert_eq!(p.skipped, 0);
    assert_eq!(p.training.labels, vec![0, 1]);
    let stats = p.stats.unwrap();
    assert_eq!(stats.average_whole, 450_000);
    assert_eq!(stats.average_rest, 0);
    assert_eq!(stats.max_price, 600_000);
    assert_eq!(stats.min_price, 300_000);
    assert_eq!(p.training.features.nrows(), 2);
    assert_eq!(p.training.features.get(1, 1), Some(FeatureValue::Count(4)));
}

#[test]
fn malformed_rows_in_text_are_skipped_and_shift_nothing() {
    let rows = parse(MIXED);
    assert_eq!(rows.len(), 8);
    let p = prepare(FileOutcome::Rows(rows), DEFAULT_PRICE_THRESHOLD).unwrap();
    assert_eq!(p.records.len(), 4);
    assert_eq!(p.skipped, 4);
    assert_eq!(p.training.features.nrows(), 4);
    assert_eq!(p.training.features.ncols(), 5);
    assert_eq!(p.training.labels, vec![0, 0, 1, 1]);
    let areas: Vec<f64> = to_array(&p.training.features).column(0).to_vec();
    assert_eq!(areas, vec![1000.0, 1500.0, 2000.0, 2500.0]);
    let prices: Vec<u64> = p.records.iter().map(|r| r.price).collect();
    assert_eq!(prices, vec![300_000, 500_000, 600_000, 500_001]);
    let stats = p.stats.unwrap();
    assert_eq!(stats.count, 4);
    assert_eq!(stats.total_price, 1_900_001);
    assert_eq!(stats.average_whole, 475_000);
    assert_eq!(stats.average_rest, 1);
    assert_eq!(stats.total_price as f64 / stats.count as f64, 475_000.25);
}

#[test]
fn unreadable_source_stops_the_run() {
    let out = prepare(FileOutcome::Unreadable, DEFAULT_PRICE_THRESHOLD);
    assert!(matches!(out, Err(IngestError::FileAccess)));
}

#[test]
fn source_with_a_header_only_prepares_an_empty_set() {
    let rows = parse("area,bedrooms,bathrooms,floors,year_built,price\n");
    let p = prepare(FileOutcome::Rows(rows), DEFAULT_PRICE_THRESHOLD).unwrap();
    assert!(p.records.is_empty());
    assert_eq!(p.skipped, 0);
    assert_eq!(p.stats, None);
    assert_eq!(p.training.features.nrows(), 0);
    assert!(p.training.labels.is_empty());
}

#[test]
fn training_twice_gives_the_same_predictions() {
    let p = prepare(FileOutcome::Rows(parse(MIXED)), DEFAULT_PRICE_THRESHOLD).unwrap();
    for depth in [4, 20] {
        let first = fit_and_predict(&p.training.features, &p.training.labels, depth);
        let second = fit_and_predict(&p.training.features, &p.training.labels, depth);
        assert_eq!(first, second);
        assert_eq!(first.len(), p.training.labels.len());
    }
}

#[test]
fn accuracy_agrees_with_the_tree_library() {
    let p = prepare(FileOutcome::Rows(parse(MIXED)), DEFAULT_PRICE_THRESHOLD).unwrap();
    let labels = p.training.labels.clone();
    let dataset = Dataset::new(to_array(&p.training.features), Array1::from(labels.clone()));
    let tree = DecisionTree::params().max_depth(Some(20)).fit(&dataset).unwrap();
    let predicted = tree.predict(&dataset);
    let theirs = predicted.confusion_matrix(&dataset).unwrap().accuracy();

    let ours = confusion_matrix(&predicted.to_vec(), &labels).unwrap().accuracy().unwrap();
    assert_eq!(ours, Accuracy { correct: 4, total: 4 });
    assert_eq!(ours.correct as f32 / ours.total as f32, theirs);
}

#[test]
fn accuracy_agrees_with_the_tree_library_on_a_shallow_tree() {
    let rows: Vec<RowOutcome> = (0..40u64)
        .map(|k| {
            RowOutcome::Parsed(DirtyHouseRecord {
                area: Real::from_bits(((k % 7) as f64).to_bits()),
                bedrooms: k % 3,
                bathrooms: Real::from_bits(1.0f64.to_bits()),
                floors: Real::from_bits(((k % 2) as f64).to_bits()),
                year_built: Real::from_bits(2000.0f64.to_bits()),
                price: 499_990 + (k * 37) % 23,
            })
        })
        .collect();
    let p = prepare(FileOutcome::Rows(rows), DEFAULT_PRICE_THRESHOLD).unwrap();
    let labels = p.training.labels.clone();
    let dataset = Dataset::new(to_array(&p.training.features), Array1::from(labels.clone()));
    let tree = DecisionTree::params().max_depth(Some(1)).fit(&dataset).unwrap();
    let predicted = tree.predict(&dataset);
    let theirs = predicted.confusion_matrix(&dataset).unwrap().accuracy();

    let m = confusion_matrix(&predicted.to_vec(), &labels).unwrap();
    let ours = m.accuracy().unwrap();
    assert_eq!(ours.total, 40);
    assert_eq!(m.count(0, 0) + m.count(1, 1), ours.correct);
    assert_eq!(ours.correct as f32 / ours.total as f32, theirs);
}
