[package]
name = "luminal-vgd"
version = "0.1.0"
edition = "2021"
publish = false

[dependencies]
tracelogging = "=1.2.4"
wdk-sys = "*"

[dependencies.windows]
version = "=0.59.0"
features = [
    "Win32_Foundation",
    "Win32_Graphics_Direct3D",
    "Win32_Graphics_Direct3D11",
    "Win32_Graphics_Dxgi",
    "Win32_Graphics_Dxgi_Common",
    "Win32_Graphics_Gdi",
    "Win32_Security",
    "Win32_Security_Authorization",
    "Win32_System_LibraryLoader",
    "Win32_System_Memory",
    "Win32_System_Performance",
    "Win32_System_Threading",
    "Win32_UI_WindowsAndMessaging",
]
