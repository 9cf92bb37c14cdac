use kernel::interrupt::{init_interrupt_table, Exception};

#[test]
fn table_holds_the_five_handlers() {
    let t = init_interrupt_table();
    assert_eq!(t.len(), 5);
    let installed: Vec<Exception> = (0..t.len()).map(|i| t.entry(i)).collect();
    assert_eq!(
        installed,
        vec![
            Exception::Breakpoint,
            Exception::DoubleFault,
            Exception::PageFault,
            Exception::AlignmentCheck,
            Exception::GeneralProtectionFault,
        ]
    );
}

#[test]
fn exceptions_use_their_architectural_vectors() {
    assert_eq!(Exception::Breakpoint.vector(), 3);
    assert_eq!(Exception::DoubleFault.vector(), 8);
    assert_eq!(Exception::GeneralProtectionFault.vector(), 13);
    assert_eq!(Exception::PageFault.vector(), 14);
    assert_eq!(Exception::AlignmentCheck.vector(), 17);
}

#[test]
fn table_routes_each_vector_to_its_handler() {
    let t = init_interrupt_table();
    assert_eq!(t.handler_for(3), Some(Exception::Breakpoint));
    assert_eq!(t.handler_for(8), Some(Exception::DoubleFault));
    assert_eq!(t.handler_for(13), Some(Exception::GeneralProtectionFault));
    assert_eq!(t.handler_for(14), Some(Exception::PageFault));
    assert_eq!(t.handler_for(17), Some(Exception::AlignmentCheck));
    for v in 0..=255u8 {
        if ![3, 8, 13, 14, 17].contains(&v) {
            assert_eq!(t.handler_for(v), None);
        }
    }
}
