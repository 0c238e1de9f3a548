use chuda::gpu::message_end;
use chuda::{Backend, CudaFailure, Renderer};

#[test]
fn batch_limit_is_at_least_one() {
    let renderer = Renderer::with_batch_limit(Backend::Cpu, 0);
    assert_eq!(renderer.batches(&[5, 5]), vec![(0, 1), (1, 2)]);
    assert_eq!(Renderer::new(Backend::Cuda).backend(), Backend::Cuda);
}

#[test]
fn batches_are_greedy_and_ordered() {
    let renderer = Renderer::with_batch_limit(Backend::Cpu, 10);
    assert_eq!(renderer.batches(&[]), vec![]);
    assert_eq!(renderer.batches(&[4, 6, 1, 20, 3, 3]), vec![(0, 2), (2, 3), (3, 4), (4, 6)]);
    assert_eq!(renderer.batches(&[10, 0, 0, 1]), vec![(0, 3), (3, 4)]);
    let large = Renderer::with_batch_limit(Backend::Cpu, usize::MAX);
    assert_eq!(large.batches(&[usize::MAX, 1]), vec![(0, 1), (1, 2)]);
}

#[test]
fn auto_falls_back_to_cpu_once() {
    let mut renderer = Renderer::new(Backend::Auto);
    assert_eq!(renderer.chunk_backend(), Backend::Cuda);
    assert_eq!(renderer.take_fallback_warning(), None);
    assert_eq!(renderer.cuda_failed("no device".to_string()), CudaFailure::RunOnCpu);
    assert_eq!(renderer.chunk_backend(), Backend::Cpu);
    assert_eq!(
        renderer.take_fallback_warning().as_deref(),
        Some("CUDA unavailable (no device); falling back to CPU")
    );
    assert_eq!(renderer.take_fallback_warning(), None);
    assert_eq!(renderer.chunk_backend(), Backend::Cpu);
    // A second failure neither falls back again nor brings the warning back.
    assert_eq!(renderer.cuda_failed("again".to_string()), CudaFailure::GiveUp);
    assert_eq!(renderer.take_fallback_warning(), None);
    assert_eq!(renderer.backend(), Backend::Auto);
    assert_eq!(Renderer::new(Backend::Cpu).chunk_backend(), Backend::Cpu);
}

#[test]
fn only_auto_falls_back() {
    for backend in [Backend::Cpu, Backend::Cuda] {
        let mut renderer = Renderer::new(backend);
        assert_eq!(renderer.cuda_failed("no device".to_string()), CudaFailure::GiveUp);
        assert_eq!(renderer.take_fallback_warning(), None);
        assert_eq!(renderer.chunk_backend(), backend);
        assert_eq!(renderer.backend(), backend);
    }
}

#[test]
fn nul_terminated_messages() {
    assert_eq!(message_end(b"bad\0rest"), 3);
    assert_eq!(message_end(b"all"), 3);
    assert_eq!(message_end(b"\0"), 0);
}
