use stross_kernel::platform::Platform;

#[test]
fn labels() {
    assert_eq!(Platform::Desktop.as_str(), "desktop");
    assert_eq!(Platform::Android.as_str(), "android");
}
