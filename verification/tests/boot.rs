use wasabi::efi_main;

#[test]
fn boot_entry_returns_to_its_caller() {
    efi_main();
}
