# arm_control

Control of a five-joint robot arm driven over a serial line.

- `src/` is the verified library: the joints and their order (`rotor`), the
  control panel's slider order and ranges (`sliders`), the motion plan and the
  command sent to the motor controller together with the flags of the joints
  still moving (`motion`), the calibration request and reply (`calibration`),
  and the decimal number format of the serial protocol (`decimal`).
- `app/` is the program around it: the 3D scene, the egui panel, the serial
  port and the per-frame stepping of the joint angles, which is floating point.
- `tests/` runs the library on concrete values.
