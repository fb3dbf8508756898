use wavepool::log::{FlightRecorder, CHUNK_SIZE};
use wavepool::time::Benchmark;

#[test]
fn chunk_size_is_128_mib() {
    assert_eq!(CHUNK_SIZE, 134217728);
}

#[test]
fn recorder_names_its_directory_after_the_stamp() {
    let rec: FlightRecorder<u8, u8, u8> = FlightRecorder::with_stamp("2025-07-08T1307");
    assert_eq!(rec.base_path(), "tlm/2025-07-08T1307");
}

#[test]
fn recorder_streams_go_to_their_own_files() {
    let mut rec: FlightRecorder<u8, u16, u32> = FlightRecorder::with_stamp("2025-08-19T1028");
    assert!(rec.log_flight_data(1).is_none());
    assert!(rec.log_flight_data(2).is_none());
    assert!(rec.log_weather_data(30).is_none());
    let (flight, physics, weather) = rec.shutdown();
    let flight = flight.expect("two flight records were queued");
    assert_eq!(flight.index, 0);
    assert_eq!(flight.url, "tlm/2025-08-19T1028/flight_000000.parquet");
    assert_eq!(flight.items, vec![1, 2]);
    assert!(physics.is_none());
    let weather = weather.expect("one weather record was queued");
    assert_eq!(weather.url, "tlm/2025-08-19T1028/weather_000000.parquet");
    assert_eq!(weather.items, vec![30]);
}

#[test]
fn recorder_physics_stream() {
    let mut rec: FlightRecorder<u8, u16, u8> = FlightRecorder::with_stamp("s");
    assert!(rec.log_physics_data(5).is_none());
    let (flight, physics, weather) = rec.shutdown();
    assert!(flight.is_none());
    assert!(weather.is_none());
    let physics = physics.unwrap();
    assert_eq!(physics.url, "tlm/s/physics_000000.parquet");
    assert_eq!(physics.items, vec![5]);
    let (again, _, _) = rec.shutdown();
    assert!(again.is_none());
}

#[test]
fn recorder_new_uses_the_local_minute() {
    let rec: FlightRecorder<u8, u8, u8> = FlightRecorder::new();
    let path = rec.base_path().to_string();
    assert!(path.starts_with("tlm/"));
    let stamp = &path[4..];
    let bytes = stamp.as_bytes();
    assert_eq!(bytes.len(), 15);
    assert_eq!(bytes[4], b'-');
    assert_eq!(bytes[7], b'-');
    assert_eq!(bytes[10], b'T');
    for i in [0usize, 1, 2, 3, 5, 6, 8, 9, 11, 12, 13, 14] {
        assert!(bytes[i].is_ascii_digit());
    }
    assert!(!stamp.contains('/'));
}

#[test]
fn benchmark_elapsed_grows() {
    let bench = Benchmark::start();
    let first = bench.elapsed();
    let second = bench.elapsed();
    assert!(second >= first);
}

#[test]
fn recorder_streams_never_share_a_file() {
    let mut rec: FlightRecorder<u8, u8, u8> = FlightRecorder::with_stamp("x");
    let _ = rec.log_flight_data(1);
    let _ = rec.log_physics_data(2);
    let _ = rec.log_weather_data(3);
    let (f, p, w) = rec.shutdown();
    let (f, p, w) = (f.unwrap().url, p.unwrap().url, w.unwrap().url);
    assert_ne!(f, p);
    assert_ne!(f, w);
    assert_ne!(p, w);
    assert_eq!(p, "tlm/x/physics_000000.parquet");
}
