use vstd::prelude::*;

verus! {

/// Vector number where the first interrupt controller's lines begin.
pub const PIC_1_OFFSET: u8 = 32;

/// Vector number where the second interrupt controller's lines begin.
pub const PIC_2_OFFSET: u8 = PIC_1_OFFSET + 8;

/// Hardware interrupt lines, numbered from the first controller's offset.
#[derive(Debug, Clone, Copy)]
pub enum InterruptIndex {
    Timer,
    Keyboard,
}

/// The vector number assigned to a hardware interrupt line.
pub open spec fn spec_vector(i: InterruptIndex) -> u8 {
    match i {
        InterruptIndex::Timer => PIC_1_OFFSET,
        InterruptIndex::Keyboard => (PIC_1_OFFSET + 1) as u8,
    }
}

impl InterruptIndex {
    /// The line's vector number.
    pub fn as_u8(self) -> (r: u8)
        ensures
            r == spec_vector(self),
    {
        match self {
            InterruptIndex::Timer => PIC_1_OFFSET,
            InterruptIndex::Keyboard => PIC_1_OFFSET + 1,
        }
    }

    /// The line's vector number, as a table index.
    pub fn as_usize(self) -> (r: usize)
        ensures
            r == spec_vector(self),
    {
        let v: u8 = self.as_u8();
        v as usize
    }
}

/// The interrupt-table layout the kernel loads: which vector gets which
/// handler, and which known-good stack the double-fault handler runs on.
pub struct IdtConfig {
    pub breakpoint_vector: u8,
    pub double_fault_vector: u8,
    pub double_fault_stack_index: u16,
    pub timer_vector: u8,
    pub keyboard_vector: u8,
}

/// The table layout to load: the architecture's breakpoint and double-fault
/// exception vectors, the double-fault handler on the first dedicated stack,
/// and the two hardware lines behind the controllers' offset. Loading the
/// table into the CPU is the platform layer's job.
pub fn init_idt() -> (r: IdtConfig)
    ensures
        r.breakpoint_vector == 3,
        r.double_fault_vector == 8,
        r.double_fault_stack_index == 0,
        r.timer_vector == spec_vector(InterruptIndex::Timer),
        r.keyboard_vector == spec_vector(InterruptIndex::Keyboard),
{
    IdtConfig {
        breakpoint_vector: 3,
        double_fault_vector: 8,
        double_fault_stack_index: 0,
        timer_vector: InterruptIndex::Timer.as_u8(),
        keyboard_vector: InterruptIndex::Keyboard.as_u8(),
    }
}

} // verus!
