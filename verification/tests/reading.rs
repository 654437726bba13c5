use cpu_freq::Acquisition;
use cpu_freq::AcquisitionPlan;
use cpu_freq::CpuFreqs;
use cpu_freq::ScalingDir;
use cpu_freq::ScalingFiles;
use cpu_freq::choose_plan;
use cpu_freq::parse_cpuinfo;
use cpu_freq::read_all;
use cpu_freq::resolve_layout;
use cpu_freq::sample_from_files;

#[test]
fn plan_prefers_scaling_when_any_directory_exists() {
    assert_eq!(choose_plan(true, true), AcquisitionPlan::Scaling);
    assert_eq!(choose_plan(true, false), AcquisitionPlan::Scaling);
    assert_eq!(choose_plan(false, true), AcquisitionPlan::Scaling);
    assert_eq!(choose_plan(false, false), AcquisitionPlan::Fallback);
}

#[test]
fn layout_prefers_per_cpu_directory() {
    // Both layouts exist for this index: the per-CPU one must win.
    assert_eq!(resolve_layout(true, true), Some(ScalingDir::PerCpu));
    assert_eq!(resolve_layout(false, true), Some(ScalingDir::PerCpu));
    assert_eq!(resolve_layout(true, false), Some(ScalingDir::Policy));
    assert_eq!(resolve_layout(false, false), None);
}

#[test]
fn sample_fields_degrade_independently() {
    let files = ScalingFiles {
        min: Some(b"1000000\n".to_vec()),
        max: None,
        cur: Some(b"garbage".to_vec()),
    };
    let s = sample_from_files(&files);
    assert_eq!(s.min, Some(1_000_000));
    assert_eq!(s.max, None);
    assert_eq!(s.cur, None);
}

#[test]
fn scaling_path_emits_one_sample_per_cpu() {
    let obs = vec![
        ScalingFiles {
            min: Some(b"800000\n".to_vec()),
            max: Some(b"3000000\n".to_vec()),
            cur: Some(b"2400000\n".to_vec()),
        },
        ScalingFiles { min: None, max: None, cur: None },
    ];
    let samples = read_all(Acquisition::Scaling(obs)).unwrap();
    assert_eq!(samples.len(), 2);
    assert_eq!(
        samples[0],
        CpuFreqs { min: Some(800_000), max: Some(3_000_000), cur: Some(2_400_000) },
    );
    assert_eq!(samples[1], CpuFreqs { min: None, max: None, cur: None });
}

#[test]
fn fallback_single_line() {
    let data = b"cpu MHz         : 1800.500".to_vec();
    let samples = read_all(Acquisition::Cpuinfo(Some(data))).unwrap();
    assert_eq!(samples.len(), 1);
    assert_eq!(samples[0], CpuFreqs { min: None, max: None, cur: Some(1_800_500) });
    assert_eq!(samples[0].cur.unwrap() as f32 / 1000.0, 1800.5);
}

#[test]
fn fallback_scans_whole_listing() {
    let data = b"processor\t: 0\n\
cpu MHz\t\t: 2200.000\n\
cache size\t: 512 KB\n\
processor\t: 1\n\
CPU MHZ\t\t: 1600.250\n\
flags\t\t: fpu vme\n"
        .to_vec();
    let samples = parse_cpuinfo(&data);
    assert_eq!(samples.len(), 2);
    assert_eq!(samples[0].cur, Some(2_200_000));
    assert_eq!(samples[1].cur, Some(1_600_250));
    assert_eq!(samples[0].min, None);
    assert_eq!(samples[0].max, None);
}

#[test]
fn fallback_skips_malformed_matching_line() {
    let data = b"cpu MHz : 2000.000\ncpu MHz : oops\ncpu MHz : 1000.000\n".to_vec();
    let samples = parse_cpuinfo(&data);
    assert_eq!(samples.len(), 2);
    assert_eq!(samples[0].cur, Some(2_000_000));
    assert_eq!(samples[1].cur, Some(1_000_000));
}

#[test]
fn fallback_skips_matching_line_without_value_token() {
    // Only three tokens: there is no value in the fourth position.
    let data = b"cpu MHz: 1400.000\n".to_vec();
    let samples = parse_cpuinfo(&data);
    assert_eq!(samples.len(), 0);
}

#[test]
fn fallback_ignores_non_matching_lines() {
    let data = b"model name : abc\nbogomips : 4800.00\n".to_vec();
    assert_eq!(parse_cpuinfo(&data).len(), 0);
}

#[test]
fn unreadable_fallback_source_yields_empty_sequence() {
    let samples = read_all(Acquisition::Cpuinfo(None)).unwrap();
    assert_eq!(samples.len(), 0);
}

#[test]
fn unsupported_platform_is_an_explicit_signal() {
    let r = read_all(Acquisition::Unsupported);
    assert!(r.is_err());
}
