use astd::pipeline::PipelineError;
use astd::pipeline::Stage;
use astd::pipeline::advance;
use astd::pipeline::cmake_compile_flags;
use astd::pipeline::cmake_config_flags;
use astd::pipeline::error_label;
use astd::pipeline::host_platform_supported;
use astd::pipeline::is_fatal;
use astd::pipeline::stage_label;
use astd::pipeline::successor;
use astd::pipeline::validate_platform;
use astd::version::EnvironmentError;

#[test]
fn test_stage_order_is_linear() {
    let order = [
        Stage::Start,
        Stage::VersionGate,
        Stage::CloneRepo,
        Stage::Configure,
        Stage::Build,
        Stage::GatherLibraries,
        Stage::GatherHeaders,
        Stage::EmitBindings,
        Stage::Done,
    ];
    for w in order.windows(2) {
        assert_eq!(successor(&w[0]), w[1]);
    }
    assert_eq!(successor(&Stage::Done), Stage::Done);
    assert_eq!(successor(&Stage::Aborted), Stage::Aborted);
}

#[test]
fn test_fatal_failures_abort_at_once() {
    let fatal = [
        PipelineError::Environment(EnvironmentError::ToolBelowMinimum),
        PipelineError::Environment(EnvironmentError::UnsupportedPlatform),
        PipelineError::Environment(EnvironmentError::UnsupportedGenerator),
        PipelineError::ExternalTool,
        PipelineError::EmissionIo,
    ];
    for e in fatal {
        assert!(is_fatal(&e));
        assert_eq!(advance(&Stage::VersionGate, &Some(e)), Stage::Aborted);
        assert_eq!(advance(&Stage::EmitBindings, &Some(e)), Stage::Aborted);
    }
}

#[test]
fn test_gather_failures_are_recoverable() {
    assert!(!is_fatal(&PipelineError::GatherIo));
    assert_eq!(
        advance(&Stage::GatherLibraries, &Some(PipelineError::GatherIo)),
        Stage::GatherHeaders
    );
    assert_eq!(
        advance(&Stage::GatherHeaders, &Some(PipelineError::GatherIo)),
        Stage::EmitBindings
    );
}

#[test]
fn test_success_moves_one_stage_forward() {
    assert_eq!(advance(&Stage::Start, &None), Stage::VersionGate);
    assert_eq!(advance(&Stage::Build, &None), Stage::GatherLibraries);
    assert_eq!(advance(&Stage::EmitBindings, &None), Stage::Done);
}

#[test]
fn test_config_flags_exact_order() {
    let flags = cmake_config_flags(true, true);
    assert_eq!(
        flags,
        vec![
            String::from("-DABSL_USE_GOOGLETEST_HEAD=ON"),
            String::from("-DCMAKE_CXX_STANDARD_REQUIRED=ON"),
            String::from("-DCMAKE_CXX_STANDARD=20"),
            String::from("-DCMAKE_BUILD_TYPE=Debug"),
            String::from("-DABSL_MSVC_STATIC_RUNTIME=ON"),
        ]
    );
    let flags = cmake_config_flags(false, false);
    assert_eq!(
        flags,
        vec![
            String::from("-DABSL_USE_GOOGLETEST_HEAD=ON"),
            String::from("-DCMAKE_CXX_STANDARD_REQUIRED=ON"),
            String::from("-DCMAKE_CXX_STANDARD=20"),
            String::from("-DCMAKE_BUILD_TYPE=Release"),
        ]
    );
}

#[test]
fn test_compile_flags_exact_order() {
    let flags = cmake_compile_flags(false, true);
    assert_eq!(
        flags,
        vec![
            String::from("--build"),
            String::from("."),
            String::from("--"),
            String::from("/p:Platform=x64"),
            String::from("/p:Configuration=Release"),
        ]
    );
    assert_eq!(cmake_compile_flags(true, false), Vec::<String>::new());
}

#[test]
fn test_host_platform_gate() {
    assert!(host_platform_supported(true, true));
    assert!(!host_platform_supported(true, false));
    assert!(!host_platform_supported(false, true));
    assert!(!host_platform_supported(false, false));
    assert!(validate_platform(true, true).is_ok());
    assert_eq!(
        validate_platform(false, true),
        Err(EnvironmentError::UnsupportedPlatform)
    );
    assert_eq!(
        validate_platform(true, false),
        Err(EnvironmentError::UnsupportedPlatform)
    );
}

#[test]
fn test_labels() {
    assert_eq!(stage_label(&Stage::VersionGate), "version gate");
    assert_eq!(stage_label(&Stage::Aborted), "aborted");
    assert_eq!(error_label(&PipelineError::GatherIo), "gather");
    assert_eq!(
        error_label(&PipelineError::Environment(EnvironmentError::UnsupportedPlatform)),
        "environment"
    );
}
