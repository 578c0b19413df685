use gpucr::backend::{default_checkpoint_path_for_pid, setup_path, setup_path_for_pid};
use gpucr::comm::control_file_path;

#[test]
fn default_checkpoint_path_names_the_pid() {
    assert_eq!(default_checkpoint_path_for_pid(4321), "/mnt/huge-ckpt/4321");
    assert_eq!(default_checkpoint_path_for_pid(-1), "/mnt/huge-ckpt/-1");
}

#[test]
fn setup_paths_default_when_empty() {
    assert_eq!(setup_path(""), "/mnt/huge-ckpt/default");
    assert_eq!(setup_path("/x/y"), "/x/y");
    assert_eq!(setup_path_for_pid("", 77), "/mnt/huge-ckpt/77");
    assert_eq!(setup_path_for_pid("/z", 77), "/z");
}

#[test]
fn control_file_is_per_process() {
    assert_eq!(control_file_path(12), "/mnt/huge-ckpt/control-12");
}
