# multiiso

Puts more than one bootable disk image on a single flash drive. The partitions
of every image are copied to the drive, and rEFInd is installed on it as a menu
from which any of the copied EFI system partitions can be booted.

```
multiiso BLOCK_DEVICE REFIND_FOLDER ISO...
```

All data on the block device is wiped without a warning. The rEFInd folder must
hold `refind_x64.efi` and the folders `icons`, `drivers_x64` and `tools_x64`.
The programs `parted`, `sfdisk`, `blockdev`, `udevadm`, `mkfs.fat`, `mount` and
`dd` are needed at run time.

## Layout

`src/` is a library that is verified with Verus. It decides what is done at each
step, also after a failure, and does no input or output.

- `text`, `guid`, `json`, `bytes`, `buffer`: texts, identifiers, documents, bytes
- `part`, `layout`: partitions, the scripts that create them, the boot menu
- `parted`: partitions in the listings that `parted` prints
- `table`, `mbr`, `gpt`, `partition_reader`: partitions in partition tables
- `command`, `plan`, `sfdisk`, `install`, `tree`, `copy`: what is run and done, step by step
- `copy_laws`: what holds of every run that copies images

`app/` is the program around it. It prepares the drive, copies the images and
writes the menu, in this order. In each it asks the library what to do next, does
it, and hands back what came of it. Where the library says that a listing or a table
cannot be worked with (`Abort`, `Overflow`), the program panics.
