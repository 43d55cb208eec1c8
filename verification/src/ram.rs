use vstd::prelude::*;

verus! {

/// The built-in hexadecimal glyph font: sixteen glyphs of five bytes each,
/// installed at address 0x000 whenever a program is loaded.
pub open spec fn font_spec() -> Seq<u8> {
    seq![
        0xF0u8, 0x90, 0x90, 0x90, 0xF0,  // 0
        0x20, 0x60, 0x20, 0x20, 0x70,  // 1
        0xF0, 0x10, 0xF0, 0x80, 0xF0,  // 2
        0xF0, 0x10, 0xF0, 0x10, 0xF0,  // 3
        0x90, 0x90, 0xF0, 0x10, 0x10,  // 4
        0xF0, 0x80, 0xF0, 0x10, 0xF0,  // 5
        0xF0, 0x80, 0xF0, 0x90, 0xF0,  // 6
        0xF0, 0x10, 0x20, 0x40, 0x40,  // 7
        0xF0, 0x90, 0xF0, 0x90, 0xF0,  // 8
        0xF0, 0x90, 0xF0, 0x10, 0xF0,  // 9
        0xF0, 0x90, 0xF0, 0x90, 0x90,  // A
        0xE0, 0x90, 0xE0, 0x90, 0xE0,  // B
        0xF0, 0x80, 0x80, 0x80, 0xF0,  // C
        0xE0, 0x90, 0x90, 0x90, 0xE0,  // D
        0xF0, 0x80, 0xF0, 0x80, 0xF0,  // E
        0xF0, 0x80, 0xF0, 0x80, 0x80,  // F
    ]
}

/// The eighty font bytes as a value.
fn font_bytes() -> (r: [u8; 80])
    ensures
        r@ == font_spec(),
{
    let r: [u8; 80] = [
        0xF0, 0x90, 0x90, 0x90, 0xF0, 0x20, 0x60, 0x20, 0x20, 0x70, 0xF0, 0x10, 0xF0, 0x80, 0xF0,
        0xF0, 0x10, 0xF0, 0x10, 0xF0, 0x90, 0x90, 0xF0, 0x10, 0x10, 0xF0, 0x80, 0xF0, 0x10, 0xF0,
        0xF0, 0x80, 0xF0, 0x90, 0xF0, 0xF0, 0x10, 0x20, 0x40, 0x40, 0xF0, 0x90, 0xF0, 0x90, 0xF0,
        0xF0, 0x90, 0xF0, 0x10, 0xF0, 0xF0, 0x90, 0xF0, 0x90, 0x90, 0xE0, 0x90, 0xE0, 0x90, 0xE0,
        0xF0, 0x80, 0x80, 0x80, 0xF0, 0xE0, 0x90, 0x90, 0x90, 0xE0, 0xF0, 0x80, 0xF0, 0x80, 0xF0,
        0xF0, 0x80, 0xF0, 0x80, 0x80,
    ];
    proof {
        assert(r@ =~= font_spec());
    }
    r
}

/// The flat 4096-byte memory of the machine.
pub struct Ram([u8; 4096]);

impl View for Ram {
    type V = Seq<u8>;

    closed spec fn view(&self) -> Seq<u8> {
        self.0@
    }
}

impl Ram {
    /// Fresh, zero-filled memory.
    pub fn new() -> (r: Self)
        ensures
            r@.len() == 4096,
            forall|i: int| 0 <= i < 4096 ==> r@[i] == 0u8,
    {
        Ram([0u8; 4096])
    }

    /// Copies the program bytes to address 0x200 onward, unmodified, and then
    /// (re)installs the eighty font bytes at address 0x000, whatever was
    /// there before; the rest of memory is untouched.
    pub fn load(&mut self, data: &[u8])
        requires
            data@.len() <= 4096 - 0x200,
        ensures
            final(self)@.len() == 4096,
            forall|i: int| 0 <= i < 80 ==> final(self)@[i] == font_spec()[i],
            forall|i: int| 0 <= i < data@.len() ==> final(self)@[0x200 + i] == data@[i],
            forall|i: int| 80 <= i < 0x200 ==> final(self)@[i] == old(self)@[i],
            forall|i: int| 0x200 + data@.len() <= i < 4096 ==> final(self)@[i] == old(self)@[i],
    {
        let mut i: usize = 0;
        while i < data.len()
            invariant
                i <= data@.len() <= 4096 - 0x200,
                self@.len() == 4096,
                forall|k: int| 0 <= k < i ==> self@[0x200 + k] == data@[k],
                forall|k: int| 0 <= k < 0x200 ==> self@[k] == old(self)@[k],
                forall|k: int| 0x200 + i <= k < 4096 ==> self@[k] == old(self)@[k],
            decreases data@.len() - i,
        {
            self.0[0x200 + i] = data[i];
            i = i + 1;
        }
        let font = font_bytes();
        let mut j: usize = 0;
        while j < 80
            invariant
                j <= 80,
                font@ == font_spec(),
                data@.len() <= 4096 - 0x200,
                self@.len() == 4096,
                forall|k: int| 0 <= k < j ==> self@[k] == font_spec()[k],
                forall|k: int| 0 <= k < data@.len() ==> self@[0x200 + k] == data@[k],
                forall|k: int| j <= k < 0x200 ==> self@[k] == old(self)@[k],
                forall|k: int| 0x200 + data@.len() <= k < 4096 ==> self@[k] == old(self)@[k],
            decreases 80 - j,
        {
            self.0[j] = font[j];
            j = j + 1;
        }
    }

    /// Single-byte read; the address must lie inside memory.
    pub fn read(&self, addr: usize) -> (r: u8)
        requires
            addr < 4096,
        ensures
            r == self@[addr as int],
    {
        self.0[addr]
    }

    /// Single-byte write; the address must lie inside memory.
    pub fn store(&mut self, addr: usize, data: u8)
        requires
            addr < 4096,
        ensures
            final(self)@ == old(self)@.update(addr as int, data),
    {
        self.0[addr] = data;
    }
}

impl Default for Ram {
    /// Fresh, zero-filled memory.
    fn default() -> (r: Self)
        ensures
            r@.len() == 4096,
            forall|i: int| 0 <= i < 4096 ==> r@[i] == 0u8,
    {
        Ram::new()
    }
}

} // verus!
